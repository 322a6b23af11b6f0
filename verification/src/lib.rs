//! Compiler for a declarative, HTML-like template language with embedded
//! host expressions, control-flow blocks and two-way data bindings.
//!
//! The pipeline: source text is tokenized (`tokens`), parsed into an
//! element tree (`html`), the host block's declarations are classified into
//! reactive state fields and event handlers (`state_block`), every bare
//! identifier in the template is validated against those tables (`check`),
//! host expressions are rewritten to go through shared-state accessors
//! (`visitor`), and the element tree is compiled into ordered instruction
//! buckets with nested scopes for loop bodies (`nodes`, `component`).
//! `reconcile` models the positional list diff executed by generated update
//! code, and `thir` parses the type-lookup toolchain's debug dump.

pub mod check;
pub mod diag;
pub mod reconcile;
pub mod strutil;
pub mod template;
pub mod thir;
pub mod expr;
pub mod expr_parse;
pub mod html;
pub mod state_block;
pub mod tokens;
pub mod visitor;
