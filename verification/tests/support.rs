use code_generator::state_block::{extract_locals, LocalDetails};
use code_generator::strutil::{chars_of, usize_to_dec};
use code_generator::template::component::{
    clean_up_generated, gen_field_type, gen_field_value_shorthand,
};
use code_generator::thir::{format_main_code, remove_last_char, Location, RawInfo, Span, Thir};
use code_generator::tokens::tokenize;

#[test]
fn impl_display_for_block() {
    let shown: &dyn core::fmt::Display = &"";
    let _ = shown;
}

fn details_of(block_src: &str) -> LocalDetails {
    let tokens = tokenize(&chars_of(block_src)).expect("lexes");
    let (stmts, _) =
        code_generator::expr_parse::parse_block(&tokens, 0).expect("parses block");
    extract_locals(&stmts).expect("extracts")
}

#[test]
fn extractor_classifies_declarations() {
    let details =
        details_of("{ let counter: u32 = 0; let name: String = \"x\"; let inc = |e| counter += 1; }");
    assert_eq!(details.states.len(), 2);
    assert_eq!(details.states[0].ident.text, "counter");
    assert_eq!(details.states[0].ty, "u32");
    assert_eq!(details.states[1].ident.text, "name");
    assert_eq!(details.states[1].ty, "String");
    assert_eq!(details.events_closures.len(), 1);
    assert_eq!(details.events_closures[0].ident.text, "inc");
}

#[test]
fn extractor_keeps_generic_type_text() {
    let details = details_of("{ let items: Vec<u32> = Vec::new(); }");
    assert_eq!(details.states[0].ty, "Vec<u32>");
}

#[test]
fn clean_up_generated_strips_markers() {
    let cleaned = clean_up_generated("//ITEM let a = 1;\nplain //ITEM kept".to_string());
    assert_eq!(cleaned, "let a = 1;\nplain kept");
}

#[test]
fn clean_up_generated_leaves_partial_marker() {
    let cleaned = clean_up_generated("//ITEMX".to_string());
    assert_eq!(cleaned, "//ITEMX");
}

#[test]
fn field_render_formulas() {
    assert_eq!(gen_field_type("counter", "u32"), "counter : u32 ,");
    assert_eq!(gen_field_value_shorthand("counter"), "counter ,");
}

#[test]
fn format_main_code_wraps() {
    assert_eq!(format_main_code("let a = 1;".to_string()), "fn main() {\nlet a = 1;\n}\n");
}

#[test]
fn remove_last_char_drops_one() {
    assert_eq!(remove_last_char("plop,".to_string()), "plop");
    assert_eq!(remove_last_char("".to_string()), "");
}

#[test]
fn usize_renders_in_decimal() {
    assert_eq!(usize_to_dec(0), "0");
    assert_eq!(usize_to_dec(42), "42");
    assert_eq!(usize_to_dec(1007), "1007");
}

#[test]
fn location_from_consecutive_values() {
    let values = vec![6u32, 9, 6, 13];
    let start = Location::from_iterator(&values, 0).expect("start");
    assert_eq!((start.line, start.column), (6, 9));
    let end = Location::from_iterator(&values, 2).expect("end");
    assert_eq!((end.line, end.column), (6, 13));
    assert!(Location::from_iterator(&values, 3).is_none());
}

#[test]
fn span_splits_dump_notation() {
    let span = Span::from_text("target/thir/src/main.rs/for_loop_1.rs:6:9:6:13(#0)");
    assert_eq!(span.file, "target/thir/src/main.rs/for_loop_1.rs");
    assert_eq!((span.start.line, span.start.column), (6, 9));
    assert_eq!((span.end.line, span.end.column), (6, 13));
}

#[test]
fn thir_dump_yields_bindings() {
    let dump = "banner line\n\
Pat {\n\
ty: u32,\n\
kind: Binding {\n\
name: \"item\",\n\
},\n\
},\n";
    let info = RawInfo::serialize(dump.to_string()).expect("parses");
    assert_eq!(info.bindings.len(), 1);
    assert_eq!(info.bindings[0].name, "item");
    assert_eq!(info.bindings[0].ty, "u32");
    match &info.thir {
        Thir::Fields((name, fields)) => {
            assert_eq!(name, "Pat");
            assert_eq!(fields.len(), 2);
            assert_eq!(fields[0].0, "ty");
        }
        other => panic!("unexpected tree: {:?}", other),
    }
}

#[test]
fn thir_dump_without_items_errors() {
    assert!(RawInfo::serialize("banner\n".to_string()).is_err());
}

/// A span dump without any colon yields an empty file and zeroed
/// positions; with colons the file is the text before the first one.
#[test]
fn span_file_splits_on_first_colon() {
    let s = Span::from_text("nocolons");
    assert_eq!(s.file, "");
    assert_eq!((s.start.line, s.start.column, s.end.line, s.end.column), (0, 0, 0, 0));
    let s = Span::from_text("src/main.rs:3:5:3:10(#0)");
    assert_eq!(s.file, "src/main.rs");
    assert_eq!((s.start.line, s.start.column), (3, 5));
    assert_eq!((s.end.line, s.end.column), (3, 10));
}
