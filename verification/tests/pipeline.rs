use code_generator::diag::Diag;
use code_generator::template::component::{full_error_wrapper, Component};
use code_generator::template::nodes::{FieldKind, Instr, NodeKind, Target};
use code_generator::thir::PatBinding;

fn compile(source: &str) -> Result<Component, Diag> {
    let lookups: Vec<(String, Vec<PatBinding>)> = Vec::new();
    let mut warnings: Vec<Diag> = Vec::new();
    full_error_wrapper(source, &lookups, &mut warnings)
}

fn compile_with_lookups(
    source: &str,
    lookups: &Vec<(String, Vec<PatBinding>)>,
) -> Result<Component, Diag> {
    let mut warnings: Vec<Diag> = Vec::new();
    full_error_wrapper(source, lookups, &mut warnings)
}

/// End to end: a nested tag with one interpolation compiles to an
/// element-creation line for `div_1`, one for `p_1` appended to `div_1`,
/// a text node created from the state field's value, and one update
/// statement re-setting that text node's content from the field.
#[test]
fn div_p_interpolation_compiles() {
    let c = compile("{ let name: String = \"plop\"; } <div><p>{name}</p></div>")
        .expect("compiles");
    let dom = &c.dom;
    assert_eq!(dom.init.len(), 3);
    match &dom.init[0] {
        Instr::CreateElement { node, kind } => {
            assert_eq!(node.tag, "div");
            assert_eq!(node.index, 1);
            assert_eq!(*kind, NodeKind::Generic);
        }
        other => panic!("unexpected init: {:?}", other),
    }
    match &dom.init[1] {
        Instr::CreateElement { node, kind } => {
            assert_eq!(node.tag, "p");
            assert_eq!(node.index, 1);
            assert_eq!(*kind, NodeKind::Generic);
        }
        other => panic!("unexpected init: {:?}", other),
    }
    match &dom.init[2] {
        Instr::CreateTextFromIdent { node, ident, from_props } => {
            assert_eq!(node.tag, "text");
            assert_eq!(ident.text, "name");
            assert!(!from_props);
        }
        other => panic!("unexpected init: {:?}", other),
    }
    // div_1 appends to the mount target, p_1 to div_1, the text to p_1.
    match &dom.mount[0] {
        Instr::AppendChild { parent, child } => {
            assert!(matches!(parent, Target::Root));
            assert_eq!(child.tag, "div");
        }
        other => panic!("unexpected mount: {:?}", other),
    }
    match &dom.mount[1] {
        Instr::AppendChild { parent, child } => {
            match parent {
                Target::Node(p) => assert_eq!((p.tag.as_str(), p.index), ("div", 1)),
                other => panic!("unexpected parent: {:?}", other),
            }
            assert_eq!(child.tag, "p");
        }
        other => panic!("unexpected mount: {:?}", other),
    }
    // One update statement re-sets the text from the field, then the
    // outermost scope clears the changed-identifier set.
    assert_eq!(dom.update.len(), 2);
    match &dom.update[0] {
        Instr::SetTextFromIdent { node, ident, from_props } => {
            assert_eq!((node.tag.as_str(), node.index), ("text", 1));
            assert_eq!(ident.text, "name");
            assert!(!from_props);
        }
        other => panic!("unexpected update: {:?}", other),
    }
    assert!(matches!(&dom.update[1], Instr::ClearUpdatedIdents));
}

/// End to end: `on:click` on a button compiles to a listener attach in
/// mount-once referencing the handler's registration slot, and a matching
/// detach in drop.
#[test]
fn button_click_listener() {
    let c = compile("{ let counter: u32 = 0; let inc = |e| counter += 1; } <button on:click={inc}></button>")
        .expect("compiles");
    let dom = &c.dom;
    assert_eq!(dom.mount_mounted.len(), 1);
    match &dom.mount_mounted[0] {
        Instr::AddListener { node, event, slot } => {
            assert_eq!((node.tag.as_str(), node.index), ("button", 1));
            assert_eq!(event, "click");
            assert_eq!(*slot, 0);
        }
        other => panic!("unexpected mount-once: {:?}", other),
    }
    let detach = dom
        .drop
        .iter()
        .find(|i| matches!(i, Instr::RemoveListener { .. }))
        .expect("detach scheduled");
    match detach {
        Instr::RemoveListener { node, event, slot } => {
            assert_eq!((node.tag.as_str(), node.index), ("button", 1));
            assert_eq!(event, "click");
            assert_eq!(*slot, 0);
        }
        other => panic!("unexpected drop: {:?}", other),
    }
    // The handler's rewritten body goes through the mutable accessor.
    assert_eq!(c.state.callbacks.len(), 1);
    assert_eq!(c.state.callbacks[0].0, "inc");
    assert!(c.state.callbacks[0].1.contains("s.borrow_mut().counter"));
}

/// A template referencing only declared identifiers is accepted; one
/// undeclared identifier rejects with its location.
#[test]
fn validator_acceptance_and_rejection() {
    assert!(compile("{ let name: String = \"x\"; } <p>{name}</p>").is_ok());
    let src = "{ let name: String = \"x\"; } <p>{nope}</p>";
    let err = compile(src).expect_err("must fail");
    assert_eq!(err.primary.pos, src.find("nope").unwrap());
    assert_eq!(err.primary.msg, "Variable is not declared in state's block.");
    let src = "{ let name: String = \"x\"; } <button on:click={nope}></button>";
    let err = compile(src).expect_err("must fail");
    assert_eq!(err.primary.pos, src.find("nope").unwrap());
    assert_eq!(err.primary.msg, "event's callback not declared in state's block.");
}

#[test]
fn missing_type_annotation_rejected() {
    let src = "{ let name = \"x\"; } <p></p>";
    let err = compile(src).expect_err("must fail");
    assert_eq!(err.primary.pos, src.find("name").unwrap());
    assert_eq!(
        err.primary.msg,
        "You must add a type. (Automatic type detection is not yet implemented)"
    );
}

#[test]
fn unsupported_local_shape_rejected() {
    let src = "{ let (a, b) = pair; } <p></p>";
    let err = compile(src).expect_err("must fail");
    assert_eq!(err.primary.msg, "This type of local is not handled yet.");
}

#[test]
fn if_codegen_is_diagnosed_gap() {
    let err = compile("{ let x: bool = true; } {if x}<p>A</p>{/if}").expect_err("must fail");
    assert_eq!(err.primary.msg, "Conditional rendering is not implemented yet.");
}

#[test]
fn bind_other_than_input_value_rejected() {
    let err = compile("{ let checked: bool = true; } <div bind:checked={checked}></div>")
        .expect_err("must fail");
    assert_eq!(
        err.primary.msg,
        "Namespace bind is not implemented (except for value on input)."
    );
}

#[test]
fn bind_value_on_input_builds_two_way_binding() {
    let c = compile("{ let counter: u32 = 0; } <input bind:value={counter}/>")
        .expect("compiles");
    let dom = &c.dom;
    // The change handler is registered at the next free slot and the
    // listener is attached there.
    assert_eq!(c.state.callbacks.len(), 1);
    assert_eq!(c.state.callbacks[0].0, "input_1_bind_value");
    assert!(c.state.callbacks[0].1.contains("value_as_number() as u32"));
    match &dom.mount_mounted[0] {
        Instr::AddListener { node, event, slot } => {
            assert_eq!((node.tag.as_str(), node.index), ("input", 1));
            assert_eq!(event, "change");
            assert_eq!(*slot, 0);
        }
        other => panic!("unexpected mount-once: {:?}", other),
    }
    // The initial displayed value is set in init, the re-sync on update.
    let has_init = dom.init.iter().any(|i| {
        matches!(i, Instr::BindInputInit { line, .. } if line.contains("set_value_as_number"))
    });
    assert!(has_init);
    let has_update = dom.update.iter().any(|i| {
        matches!(i, Instr::BindInputUpdate { line, .. } if line.contains("set_value_as_number"))
    });
    assert!(has_update);
}

/// A compilable loop needs its type-lookup result; with it, the loop
/// compiles to its bookkeeping fields, anchor, mount and gated update,
/// and a nested non-appending scope.
#[test]
fn loop_compiles_with_lookup() {
    let source =
        "{ let items: Vec<u32> = Vec::new(); } {for item in items}<p>{item}</p>{/for}";
    let err = compile(source).expect_err("missing lookup must fail");
    assert_eq!(err.primary.msg, "Type lookup has no result for this loop.");

    let mut warnings: Vec<Diag> = Vec::new();
    let snippets =
        code_generator::template::component::template_loop_snippets(source, &mut warnings)
            .expect("snippets");
    assert_eq!(snippets.len(), 1);
    let lookups = vec![(
        snippets[0].clone(),
        vec![PatBinding { name: "item".to_string(), ty: "u32".to_string() }],
    )];
    let c = compile_with_lookups(source, &lookups).expect("compiles");
    let dom = &c.dom;
    let loop_field = dom
        .fields
        .iter()
        .find(|f| matches!(f.1, FieldKind::LoopVec))
        .expect("loop field");
    assert_eq!((loop_field.0.tag.as_str(), loop_field.0.index), ("for_loop", 1));
    let reconcile = dom
        .update
        .iter()
        .find(|i| matches!(i, Instr::LoopReconcile { .. }))
        .expect("gated update");
    match reconcile {
        Instr::LoopReconcile { deps, pat, anchor, .. } => {
            assert_eq!(deps, &vec!["items".to_string()]);
            assert_eq!(pat.text, "item");
            assert_eq!(anchor.tag, "empty");
        }
        other => panic!("unexpected update: {:?}", other),
    }
    assert_eq!(dom.sub_doms.len(), 1);
    let sub = &dom.sub_doms[0].1;
    assert!(!sub.append_nodes);
    assert!(matches!(&sub.mount[0], Instr::BindParent));
    assert_eq!(sub.props, vec![("item".to_string(), "u32".to_string())]);
    // The loop body's interpolation reads the prop, not the state.
    let body_text = sub
        .init
        .iter()
        .find(|i| matches!(i, Instr::CreateTextFromIdent { .. }))
        .expect("body text node");
    match body_text {
        Instr::CreateTextFromIdent { ident, from_props, .. } => {
            assert_eq!(ident.text, "item");
            assert!(*from_props);
        }
        other => panic!("unexpected init: {:?}", other),
    }
}

/// A rewrite error in an event handler aborts the whole compilation:
/// here a macro invocation referencing template state.
#[test]
fn macro_in_handler_aborts() {
    let err = compile(
        "{ let counter: u32 = 0; let log = |e| println!(counter); } <button on:click={log}></button>",
    )
    .expect_err("must fail");
    assert_eq!(err.primary.msg, "Macro are not implemented yet in html.");
}

/// A loop body that never references the pattern binding gets empty
/// props: the nested scope receives only what it reads.
#[test]
fn loop_props_restricted_to_referenced() {
    let source = "{ let items: Vec<u32> = Vec::new(); } {for item in items}<p>x</p>{/for}";
    let mut warnings: Vec<Diag> = Vec::new();
    let snippets =
        code_generator::template::component::template_loop_snippets(source, &mut warnings)
            .expect("snippets");
    let lookups = vec![(
        snippets[0].clone(),
        vec![PatBinding { name: "item".to_string(), ty: "u32".to_string() }],
    )];
    let c = compile_with_lookups(source, &lookups).expect("compiles");
    assert!(c.dom.sub_doms[0].1.props.is_empty());
}

/// A loop with an unsupported pattern warns and is skipped entirely.
#[test]
fn loop_with_tuple_pattern_skipped() {
    let lookups: Vec<(String, Vec<PatBinding>)> = Vec::new();
    let mut warnings: Vec<Diag> = Vec::new();
    let c = full_error_wrapper(
        "{ let items: Vec<u32> = Vec::new(); } {for a, b in items}<p>x</p>{/for}",
        &lookups,
        &mut warnings,
    )
    .expect("compiles");
    assert!(c.dom.sub_doms.is_empty());
    assert!(!c.dom.update.iter().any(|i| matches!(i, Instr::LoopReconcile { .. })));
    // Generation warnings collect on the scope that skipped the loop.
    assert!(c
        .dom
        .warnings
        .iter()
        .any(|w| w.primary.msg.contains("only a single-identifier pattern")));
    let _ = warnings;
}

/// A registered handler renders as the standard callback closure: the
/// clone prologue, the event closure header, and the dirty-marking
/// epilogue around the rewritten body.
#[test]
fn handler_renders_standard_closure() {
    let c = compile("{ let counter: u32 = 0; let inc = |e| counter += 1; } <button on:click={inc}></button>")
        .expect("compiles");
    let text = &c.state.callbacks[0].1;
    assert!(text.starts_with("let inc = {\n    let r = runtime.clone();\n    let s = state.clone();\n"));
    assert!(text.contains("    move |event: web_sys::Event| {\n        let s = s.clone();\n"));
    assert!(text.contains("s.borrow_mut().counter += 1"));
    assert!(text.ends_with("        if !r.borrow().dirty_ids.contains(&id) {\n            r.borrow_mut().dirty_ids.insert(id);\n        }\n    }\n};\n"));
}

/// Two rewrite errors surface together: the first as the diagnostic's
/// primary point, the second as its secondary.
#[test]
fn two_rewrite_errors_combine() {
    let src = "{ let counter: u32 = 0; let log = |e| { println!(counter); dbg!(counter); }; } <button on:click={log}></button>";
    let err = compile(src).expect_err("must fail");
    assert_eq!(err.primary.msg, "Macro are not implemented yet in html.");
    let sec = err.secondary.expect("second error carried");
    assert_eq!(sec.msg, "Macro are not implemented yet in html.");
    assert!(err.primary.pos < sec.pos);
}
