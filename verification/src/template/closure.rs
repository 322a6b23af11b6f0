//! Closure texts registered on the generated component's shared state.
//!
//! Two kinds of callbacks exist: the handler generated for a two-way
//! `bind:value` on an input-like node, which writes the control's value
//! back into shared state and marks the component dirty, and the user's
//! own event handlers, whose bodies are rewritten to go through the
//! shared-state accessors before being rendered.

use vstd::prelude::*;
use crate::expr::expr_to_text;
use crate::expr::stmt_to_text;
use crate::expr::view_expr;
use crate::expr::Expr;
use crate::state_block::EventClosure;
use crate::state_block::State;
use crate::strutil::str_eq;
use crate::visitor::ident::frame_ok;
use crate::visitor::ident::rw_expr;
use crate::visitor::ident::IdentModifier;
use vstd::string::StringExecFns;

verus! {

/// The pieces substituted into the two-way-binding handler's text.
#[derive(Debug)]
pub struct ClosureBindInputTemplate {
    pub name: String,
    pub bind_ident: String,
    pub number_type: Option<String>,
}

/// The two-way-binding handler's text: under the handler's name, a
/// closure that reads the control's value — numerically, cast to the
/// field's type, when the field is numeric — stores it into the bound
/// state field, and marks the component dirty.
pub open spec fn bind_handler_text(
    name: Seq<char>,
    bind_ident: Seq<char>,
    numeric: Option<Seq<char>>,
) -> Seq<char> {
    "let "@ + name + " = {\n    let r = runtime.clone();\n    let s = state.clone();\n"@
        + "    move |event: web_sys::Event| {\n        let s = s.clone();\n"@
        + "        s.borrow_mut()."@ + bind_ident
        + " = event\n            .target()\n            .unwrap_throw()\n"@
        + "            .dyn_ref::<web_sys::HtmlInputElement>()\n"@
        + "            .unwrap_throw()\n"@ + (match numeric {
        Some(ty) => "            .value_as_number() as "@ + ty + ";\n"@,
        None => "            .value();\n"@,
    }) + "        if !r.borrow().dirty_ids.contains(&id) {\n"@
        + "            r.borrow_mut().dirty_ids.insert(id);\n        }\n    }\n};\n"@
}

/// The initial-value line: sets the control's displayed value from the
/// bound field, as a number for numeric fields.
pub open spec fn bind_init_line(element: Seq<char>, ident: Seq<char>, numeric: bool) -> Seq<
    char,
> {
    element + ".set_value_as_number(state.borrow()."@ + ident + (if numeric {
        " as f64"@
    } else {
        ""@
    }) + ");"@
}

/// The update line: re-syncs the control's displayed value from the
/// bound field.
pub open spec fn bind_update_line(element: Seq<char>, ident: Seq<char>, numeric: bool) -> Seq<
    char,
> {
    "self."@ + element + ".set_value_as_number(self.state.borrow()."@ + ident + (if numeric {
        " as f64"@
    } else {
        ""@
    }) + ");"@
}

impl ClosureBindInputTemplate {
    /// Renders [`bind_handler_text`] for these pieces.
    pub fn render(&self) -> (r: String)
        ensures
            r@ == bind_handler_text(
                self.name@,
                self.bind_ident@,
                match self.number_type {
                    Some(ty) => Some(ty@),
                    None => None,
                },
            ),
    {
        let mut out = String::from_str("let ");
        out.append(self.name.as_str());
        out.append(" = {\n    let r = runtime.clone();\n    let s = state.clone();\n");
        out.append("    move |event: web_sys::Event| {\n        let s = s.clone();\n");
        out.append("        s.borrow_mut().");
        out.append(self.bind_ident.as_str());
        out.append(" = event\n            .target()\n            .unwrap_throw()\n");
        out.append("            .dyn_ref::<web_sys::HtmlInputElement>()\n");
        out.append("            .unwrap_throw()\n");
        match &self.number_type {
            Some(ty) => {
                out.append("            .value_as_number() as ");
                out.append(ty.as_str());
                out.append(";\n");
            },
            None => {
                out.append("            .value();\n");
            },
        }
        out.append("        if !r.borrow().dirty_ids.contains(&id) {\n");
        out.append("            r.borrow_mut().dirty_ids.insert(id);\n        }\n    }\n};\n");
        proof {
            assert(out@ =~= bind_handler_text(
                self.name@,
                self.bind_ident@,
                match self.number_type {
                    Some(ty) => Some(ty@),
                    None => None,
                },
            ));
        }
        out
    }
}

/// The three texts a two-way input binding contributes: the change
/// handler to register, the initial-value line and the update line.
#[derive(Debug)]
pub struct ClosureBindInput {
    pub callback_on_change: (String, String),
    pub init_value: String,
    pub update_value: String,
}

/// The declared types that read and write through the numeric value of
/// an input control.
pub open spec fn spec_is_numeric(ty: Seq<char>) -> bool {
    ty == "u8"@ || ty == "u16"@ || ty == "u32"@ || ty == "u64"@ || ty == "i8"@ || ty == "i16"@
        || ty == "i32"@ || ty == "i64"@
}

/// Whether a declared type reads and writes through the numeric value of
/// an input control.
pub fn is_numeric_type(ty: &str) -> (r: bool)
    ensures
        r == spec_is_numeric(ty@),
{
    str_eq(ty, "u8") || str_eq(ty, "u16") || str_eq(ty, "u32") || str_eq(ty, "u64") || str_eq(
        ty,
        "i8",
    ) || str_eq(ty, "i16") || str_eq(ty, "i32") || str_eq(ty, "i64")
}

impl ClosureBindInput {
    /// Builds the two-way-binding pieces for `bind:value` on an
    /// input-like node bound to the given state field: the change handler
    /// under the `<element>_bind_value` name, the initial-value line for
    /// init and the re-sync line for update.
    pub fn new(element_name: &str, init_ident: String, state: &State) -> (r: ClosureBindInput)
        ensures
            r.callback_on_change.0@ == element_name@ + "_bind_value"@,
            r.callback_on_change.1@ == bind_handler_text(
                element_name@ + "_bind_value"@,
                state.ident.text@,
                if spec_is_numeric(state.ty@) {
                    Some(state.ty@)
                } else {
                    None
                },
            ),
            r.init_value@ == bind_init_line(
                element_name@,
                init_ident@,
                spec_is_numeric(state.ty@),
            ),
            r.update_value@ == bind_update_line(
                element_name@,
                init_ident@,
                spec_is_numeric(state.ty@),
            ),
    {
        let mut name = String::from_str(element_name);
        name.append("_bind_value");
        let numeric = is_numeric_type(state.ty.as_str());
        let mut init_value = String::from_str(element_name);
        init_value.append(".set_value_as_number(state.borrow().");
        init_value.append(init_ident.as_str());
        if numeric {
            init_value.append(" as f64");
        }
        init_value.append(");");
        let mut update_value = String::from_str("self.");
        update_value.append(element_name);
        update_value.append(".set_value_as_number(self.state.borrow().");
        update_value.append(init_ident.as_str());
        if numeric {
            update_value.append(" as f64");
        }
        update_value.append(");");
        let template = ClosureBindInputTemplate {
            name: name.clone(),
            bind_ident: state.ident.text.clone(),
            number_type: if numeric {
                Some(state.ty.clone())
            } else {
                None
            },
        };
        let rendered = template.render();
        proof {
            reveal_strlit("");
            assert(name@ =~= element_name@ + "_bind_value"@);
            assert(init_value@ =~= bind_init_line(
                element_name@,
                init_ident@,
                spec_is_numeric(state.ty@),
            ));
            assert(update_value@ =~= bind_update_line(
                element_name@,
                init_ident@,
                spec_is_numeric(state.ty@),
            ));
        }
        ClosureBindInput { callback_on_change: (name, rendered), init_value, update_value }
    }
}

/// The indented body lines of a rendered event handler, one per
/// statement.
pub open spec fn handler_lines(stmts: Seq<String>) -> Seq<char>
    decreases stmts,
{
    if stmts.len() == 0 {
        Seq::<char>::empty()
    } else {
        "        "@ + stmts[0]@ + "\n"@ + handler_lines(stmts.skip(1))
    }
}

proof fn lemma_handler_lines_snoc(stmts: Seq<String>, x: String)
    ensures
        handler_lines(stmts.push(x)) == handler_lines(stmts) + "        "@ + x@ + "\n"@,
    decreases stmts,
{
    reveal_with_fuel(handler_lines, 2);
    if stmts.len() == 0 {
        assert(stmts.push(x)[0] == x);
        assert(stmts.push(x).skip(1) =~= Seq::<String>::empty());
        assert(handler_lines(stmts.push(x)) =~= handler_lines(stmts) + "        "@ + x@
            + "\n"@);
    } else {
        lemma_handler_lines_snoc(stmts.skip(1), x);
        assert(stmts.push(x)[0] == stmts[0]);
        assert(stmts.push(x).skip(1) =~= stmts.skip(1).push(x));
        assert(handler_lines(stmts.push(x)) =~= "        "@ + stmts[0]@ + "\n"@
            + handler_lines(stmts.skip(1).push(x)));
        assert(handler_lines(stmts.skip(1).push(x)) =~= handler_lines(stmts.skip(1))
            + "        "@ + x@ + "\n"@);
        assert(handler_lines(stmts.push(x)) =~= handler_lines(stmts) + "        "@ + x@
            + "\n"@);
    }
}

/// A rendered event handler: a closure under the handler's name that
/// clones the shared runtime and state handles, runs the rewritten body
/// statements on each event, and marks the component dirty.
pub open spec fn handler_text(name: Seq<char>, stmts: Seq<String>) -> Seq<char> {
    "let "@ + name + " = {\n    let r = runtime.clone();\n    let s = state.clone();\n"@
        + "    move |event: web_sys::Event| {\n        let s = s.clone();\n"@ + handler_lines(
        stmts,
    ) + "        if !r.borrow().dirty_ids.contains(&id) {\n"@
        + "            r.borrow_mut().dirty_ids.insert(id);\n        }\n    }\n};\n"@
}

/// The pieces substituted into a user event handler's text.
#[derive(Debug)]
pub struct ClosureTemplate {
    pub name: String,
    pub statements: Vec<String>,
}

impl ClosureTemplate {
    /// The handler's text: the rewritten body statements followed by the
    /// dirty-marking epilogue.
    pub fn render(&self) -> (r: String)
        ensures
            r@ == handler_text(self.name@, self.statements@),
    {
        let mut out = String::from_str("let ");
        out.append(self.name.as_str());
        out.append(" = {\n    let r = runtime.clone();\n    let s = state.clone();\n");
        out.append("    move |event: web_sys::Event| {\n        let s = s.clone();\n");
        let ghost head = out@;
        proof {
            assert(self.statements@.take(0) =~= Seq::<String>::empty());
            assert(out@ =~= head + handler_lines(self.statements@.take(0)));
        }
        let mut i: usize = 0;
        while i < self.statements.len()
            invariant
                i <= self.statements@.len(),
                out@ == head + handler_lines(self.statements@.take(i as int)),
            decreases self.statements@.len() - i,
        {
            out.append("        ");
            out.append(self.statements[i].as_str());
            out.append("\n");
            proof {
                lemma_handler_lines_snoc(self.statements@.take(i as int), self.statements@[i as int]);
                assert(self.statements@.take(i + 1) =~= self.statements@.take(i as int).push(
                    self.statements@[i as int],
                ));
                assert(out@ =~= head + handler_lines(self.statements@.take(i + 1)));
            }
            i = i + 1;
        }
        proof {
            assert(self.statements@.take(self.statements@.len() as int) =~= self.statements@);
        }
        out.append("        if !r.borrow().dirty_ids.contains(&id) {\n");
        out.append("            r.borrow_mut().dirty_ids.insert(id);\n        }\n    }\n};\n");
        proof {
            assert(out@ =~= handler_text(self.name@, self.statements@));
        }
        out
    }

    /// Rewrites the event handler's closure destructively through the
    /// shared-state accessors and renders it as a registered callback:
    /// the handler's name with its text.
    pub fn string_from_event_closure(
        event_closure: &mut EventClosure,
        ident_modifier: &mut IdentModifier,
    ) -> (r: (String, String))
        ensures
            r.0@ == old(event_closure).ident.text@,
            view_expr(final(event_closure).closure) == rw_expr(
                view_expr(old(event_closure).closure),
                old(ident_modifier).rw_view(),
                old(ident_modifier).states_set(),
                old(ident_modifier).state_ident@,
                false,
            ).0,
            final(ident_modifier).rw_view() == rw_expr(
                view_expr(old(event_closure).closure),
                old(ident_modifier).rw_view(),
                old(ident_modifier).states_set(),
                old(ident_modifier).state_ident@,
                false,
            ).1,
            frame_ok(*old(ident_modifier), *final(ident_modifier)),
            final(event_closure).ident == old(event_closure).ident,
            exists|stmts: Seq<String>|
                r.1@ == #[trigger] handler_text(old(event_closure).ident.text@, stmts),
    {
        let rewritten = ident_modifier.rewrite_expr(&event_closure.closure);
        event_closure.closure = rewritten;
        let name = event_closure.ident.text.clone();
        let mut statements: Vec<String> = Vec::new();
        let mut body_done = false;
        match &event_closure.closure {
            Expr::Closure(_, body) => {
                match &**body {
                    Expr::Block(stmts) => {
                        let mut i: usize = 0;
                        while i < stmts.len()
                            decreases stmts@.len() - i,
                        {
                            statements.push(stmt_to_text(&stmts[i]));
                            i = i + 1;
                        }
                        body_done = true;
                    },
                    _ => {},
                }
                if !body_done {
                    let mut line = expr_to_text(body);
                    line.append(" ;");
                    statements.push(line);
                    body_done = true;
                }
            },
            _ => {},
        }
        if !body_done {
            let mut line = expr_to_text(&event_closure.closure);
            line.append(" ;");
            statements.push(line);
        }
        let text = ClosureTemplate { name: name.clone(), statements }.render();
        (name, text)
    }
}

} // verus!
