//! Walks over host expressions: the identifier rewriter.

pub mod ident;
