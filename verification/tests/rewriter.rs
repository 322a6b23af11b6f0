use code_generator::expr::{expr_to_text, AsnOp, BinOp, Expr, Name};
use code_generator::visitor::ident::IdentModifier;

fn name(text: &str) -> Name {
    Name { text: text.to_string(), pos: 0 }
}

fn modifier(states: &[&str]) -> IdentModifier {
    IdentModifier::new(states.iter().map(|s| s.to_string()).collect(), "s".to_string())
}

/// An expression that is exactly one state identifier in read position is
/// wrapped in exactly one read accessor.
#[test]
fn single_state_ident_reads() {
    let mut m = modifier(&["counter"]);
    let r = m.rewrite_expr(&Expr::Ident(name("counter")));
    assert_eq!(expr_to_text(&r), "s.borrow().counter");
    assert_eq!(m.names_ref, vec!["counter".to_string()]);
    assert!(m.names_refmut.is_empty());
    assert!(m.errors.is_empty());
}

/// As an assignment target the same identifier gets exactly one mutable
/// accessor; the right side stays in read position.
#[test]
fn assignment_target_mutates() {
    let mut m = modifier(&["counter", "plop"]);
    let e = Expr::AssignOp(
        AsnOp::Add,
        Box::new(Expr::Ident(name("counter"))),
        Box::new(Expr::Binary(
            BinOp::Add,
            Box::new(Expr::LitInt("5".to_string())),
            Box::new(Expr::Ident(name("plop"))),
        )),
    );
    let r = m.rewrite_expr(&e);
    assert_eq!(expr_to_text(&r), "(s.borrow_mut().counter += (5 + s.borrow().plop))");
    assert_eq!(m.names_refmut, vec!["counter".to_string()]);
    assert_eq!(m.names_ref, vec!["plop".to_string()]);
    assert!(m.errors.is_empty());
}

/// A binary expression with one state identifier per operand never gets a
/// whole-expression wrap: only the operand leaves are wrapped.
#[test]
fn binary_operands_wrap_individually() {
    let mut m = modifier(&["a", "b"]);
    let e = Expr::Binary(
        BinOp::Eq,
        Box::new(Expr::Ident(name("a"))),
        Box::new(Expr::Ident(name("b"))),
    );
    let r = m.rewrite_expr(&e);
    assert_eq!(expr_to_text(&r), "(s.borrow().a == s.borrow().b)");
}

/// A mutating method call wraps its receiver mutably.
#[test]
fn method_call_receiver_mutates() {
    let mut m = modifier(&["items"]);
    let e = Expr::MethodCall(
        Box::new(Expr::Ident(name("items"))),
        name("push"),
        vec![Expr::LitInt("1".to_string())],
    );
    let r = m.rewrite_expr(&e);
    assert_eq!(expr_to_text(&r), "s.borrow_mut().items.push(1)");
    assert_eq!(m.names_refmut, vec!["items".to_string()]);
}

/// A local binding shadows the state name from its declaration on.
#[test]
fn local_binding_shadows() {
    let mut m = modifier(&["counter"]);
    let e = Expr::Closure(
        vec![name("counter")],
        Box::new(Expr::Binary(
            BinOp::Add,
            Box::new(Expr::Ident(name("counter"))),
            Box::new(Expr::LitInt("1".to_string())),
        )),
    );
    let r = m.rewrite_expr(&e);
    assert_eq!(expr_to_text(&r), "|counter| (counter + 1)");
    assert!(m.names_ref.is_empty());
}

/// A closure over state rewrites its body, as an event handler does.
#[test]
fn closure_body_rewrites() {
    let mut m = modifier(&["counter", "plop"]);
    let e = Expr::Closure(
        vec![name("number")],
        Box::new(Expr::AssignOp(
            AsnOp::Add,
            Box::new(Expr::Ident(name("counter"))),
            Box::new(Expr::Binary(
                BinOp::Add,
                Box::new(Expr::LitInt("5".to_string())),
                Box::new(Expr::Ident(name("plop"))),
            )),
        )),
    );
    let r = m.rewrite_expr(&e);
    assert_eq!(
        expr_to_text(&r),
        "|number| (s.borrow_mut().counter += (5 + s.borrow().plop))"
    );
}

/// A macro invocation whose arguments reference state is a rewrite error.
#[test]
fn macro_referencing_state_rejected() {
    let mut m = modifier(&["counter"]);
    let e = Expr::MacroCall(name("println"), vec![Expr::Ident(name("counter"))]);
    let _ = m.rewrite_expr(&e);
    assert_eq!(m.errors.len(), 1);
    assert_eq!(m.errors[0].primary.msg, "Macro are not implemented yet in html.");
    assert!(m.raise_errors().is_err());
}

/// A macro that references no state passes through untouched.
#[test]
fn macro_without_state_passes() {
    let mut m = modifier(&["counter"]);
    let e = Expr::MacroCall(name("println"), vec![Expr::LitStr("x".to_string())]);
    let r = m.rewrite_expr(&e);
    assert_eq!(expr_to_text(&r), "println!(\"x\")");
    assert!(m.errors.is_empty());
    assert!(m.raise_errors().is_ok());
}

/// An assignment target that is more than a single identifier but still
/// references state is a rewrite error.
#[test]
fn multi_ident_assignment_target_rejected() {
    let mut m = modifier(&["point"]);
    let e = Expr::Assign(
        Box::new(Expr::Field(Box::new(Expr::Ident(name("point"))), name("x"))),
        Box::new(Expr::LitInt("5".to_string())),
    );
    let _ = m.rewrite_expr(&e);
    assert_eq!(m.errors.len(), 1);
    assert!(m.raise_errors().is_err());
}

/// The identifiers seen outside any local binding.
#[test]
fn moved_names_excludes_locals() {
    let mut m = modifier(&["counter"]);
    let e = Expr::Closure(
        vec![name("number")],
        Box::new(Expr::Binary(
            BinOp::Add,
            Box::new(Expr::Ident(name("number"))),
            Box::new(Expr::Ident(name("outer"))),
        )),
    );
    let _ = m.rewrite_expr(&e);
    let moved = m.moved_names();
    assert!(moved.contains(&"outer".to_string()));
    assert!(!moved.contains(&"number".to_string()));
}
