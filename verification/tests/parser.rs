use code_generator::diag::Diag;
use code_generator::expr::Expr;
use code_generator::html::{serialize_el, Attribute, AttrExprType, Classic, Element, ExprElement, Root};
use code_generator::strutil::chars_of;
use code_generator::tokens::{tokenize, Token, TokenKind};

fn lex(src: &str) -> Vec<Token> {
    tokenize(&chars_of(src)).expect("lexes")
}

fn parse_root(src: &str) -> Result<Vec<Element>, Diag> {
    let tokens = lex(src);
    let mut warnings: Vec<Diag> = Vec::new();
    let (Root(elements), _) = Root::parse(&tokens, 0, &mut warnings)?;
    Ok(elements)
}

#[test]
fn element_classic() {
    let elements = parse_root(
        "<plop>\n  <truc></truc>\n  <other></other>\n  <void/>\n  <!--other></other-->\n</plop>",
    )
    .expect("parses");
    assert_eq!(elements.len(), 1);
    match &elements[0] {
        Element::Classic(Classic { name, children, attrs }) => {
            assert_eq!(name.text, "plop");
            assert_eq!(attrs.len(), 0);
            assert_eq!(children.len(), 4);
            match &children[0] {
                Element::Classic(c) => assert_eq!(c.name.text, "truc"),
                other => panic!("unexpected child: {:?}", other),
            }
            match &children[1] {
                Element::Classic(c) => assert_eq!(c.name.text, "other"),
                other => panic!("unexpected child: {:?}", other),
            }
            match &children[2] {
                Element::Classic(c) => {
                    assert_eq!(c.name.text, "void");
                    assert_eq!(c.children.len(), 0);
                }
                other => panic!("unexpected child: {:?}", other),
            }
            match &children[3] {
                Element::Comment(text) => assert_eq!(text, "<!--other></other-->"),
                other => panic!("unexpected child: {:?}", other),
            }
        }
        other => panic!("unexpected element: {:?}", other),
    }
}

#[test]
fn attribute_forms() {
    let elements = parse_root(
        "<plop attr=\"value\" attr2=value2 attr3 bind:value={variable} on:click={inc}></plop>",
    )
    .expect("parses");
    match &elements[0] {
        Element::Classic(Classic { attrs, .. }) => {
            assert_eq!(attrs.len(), 5);
            assert_eq!(attrs[0].namespace, "");
            assert_eq!(attrs[0].name, "attr");
            assert!(matches!(&attrs[0].expr, AttrExprType::String(v) if v == "value"));
            assert_eq!(attrs[1].name, "attr2");
            assert!(matches!(&attrs[1].expr, AttrExprType::String(v) if v == "value2"));
            assert_eq!(attrs[2].name, "attr3");
            assert!(matches!(&attrs[2].expr, AttrExprType::String(v) if v.is_empty()));
            assert_eq!(attrs[3].namespace, "bind");
            assert_eq!(attrs[3].name, "value");
            assert!(matches!(&attrs[3].expr, AttrExprType::Ident(n) if n.text == "variable"));
            assert_eq!(attrs[4].namespace, "on");
            assert_eq!(attrs[4].name, "click");
            assert!(matches!(&attrs[4].expr, AttrExprType::Ident(n) if n.text == "inc"));
        }
        other => panic!("unexpected element: {:?}", other),
    }
}

/// End to end: mismatched tags fail with a two-location diagnostic
/// citing both names.
#[test]
fn mismatched_tags_two_locations() {
    let src = "<a></b>";
    let err = parse_root(src).expect_err("must fail");
    // The primary marker stands on `b`, the secondary on `a`.
    assert_eq!(err.primary.pos, src.find('b').unwrap());
    let secondary = err.secondary.expect("paired diagnostic");
    assert_eq!(secondary.pos, src.find('a').unwrap());
    assert_eq!(
        err.primary.msg,
        "Closing element's name does not match an opening element's name."
    );
    assert_eq!(secondary.msg, "No closing element's name match this elements name.");
}

/// End to end: an if chain with `else if` and `else` parses into one
/// `If` element with three branches, the third holding the literal
/// `true`.
#[test]
fn if_chain_three_branches() {
    let elements =
        parse_root("{if x}<p>A</p>{else if y}<p>B</p>{else}<p>C</p>{/if}").expect("parses");
    assert_eq!(elements.len(), 1);
    match &elements[0] {
        Element::ExprElement(ExprElement::If { conditions }) => {
            assert_eq!(conditions.len(), 3);
            assert!(matches!(&conditions[0].expr, Expr::Ident(n) if n.text == "x"));
            assert!(matches!(&conditions[1].expr, Expr::Ident(n) if n.text == "y"));
            assert!(matches!(&conditions[2].expr, Expr::LitBool(true)));
            assert_eq!(conditions[0].children.len(), 1);
            assert_eq!(conditions[1].children.len(), 1);
            assert_eq!(conditions[2].children.len(), 1);
        }
        other => panic!("unexpected element: {:?}", other),
    }
}

#[test]
fn for_block_parses() {
    let elements = parse_root("{for item in 0..10}<p>x</p>{/for}").expect("parses");
    match &elements[0] {
        Element::ExprElement(ExprElement::For { pat, expr, children }) => {
            assert!(
                matches!(pat, code_generator::html::ForPat::Ident(n) if n.text == "item")
            );
            assert!(matches!(expr, Expr::Binary(code_generator::expr::BinOp::Range, _, _)));
            assert_eq!(children.len(), 1);
        }
        other => panic!("unexpected element: {:?}", other),
    }
}

#[test]
fn for_block_missing_closer_is_paired() {
    let err = parse_root("{for item in items}<p>x</p>{/nope}").expect_err("must fail");
    assert!(err.secondary.is_some());
}

#[test]
fn second_else_rejected() {
    let err =
        parse_root("{if x}<p>A</p>{else}<p>B</p>{else}<p>C</p>{/if}").expect_err("must fail");
    assert!(err.secondary.is_some());
}

#[test]
fn interpolation_forms() {
    let elements = parse_root("<p>{name}</p>").expect("parses");
    match &elements[0] {
        Element::Classic(c) => match &c.children[0] {
            Element::ExprElement(ExprElement::Ident(n)) => assert_eq!(n.text, "name"),
            other => panic!("unexpected child: {:?}", other),
        },
        other => panic!("unexpected element: {:?}", other),
    }
    let elements = parse_root("<p>{\"hello world\"}</p>").expect("parses");
    match &elements[0] {
        Element::Classic(c) => match &c.children[0] {
            Element::ExprElement(ExprElement::Lit(s)) => assert_eq!(s, "hello world"),
            other => panic!("unexpected child: {:?}", other),
        },
        other => panic!("unexpected element: {:?}", other),
    }
}

#[test]
fn text_runs_verbatim() {
    let elements = parse_root("<p>some words</p>").expect("parses");
    match &elements[0] {
        Element::Classic(c) => match &c.children[0] {
            Element::Text(t) => assert_eq!(t, "somewords"),
            other => panic!("unexpected child: {:?}", other),
        },
        other => panic!("unexpected element: {:?}", other),
    }
}

#[test]
fn unterminated_string_fails_lexing() {
    let src = "<p attr=\"oops></p>";
    assert!(tokenize(&chars_of(src)).is_err());
}

/// The round trip on the tag fragment: serializing a well-formed tag
/// tree and parsing it back yields the same element shape. The general
/// law is the parser's own contract; this checks one concrete tree.
#[test]
fn parse_inverts_serialize() {
    let name = |text: &str| code_generator::expr::Name { text: text.to_string(), pos: 0 };
    let tree = Element::Classic(Classic {
        name: name("div"),
        attrs: vec![
            Attribute {
                name: "class".to_string(),
                namespace: String::new(),
                expr: AttrExprType::String("wide".to_string()),
            },
            Attribute {
                name: "value".to_string(),
                namespace: "bind".to_string(),
                expr: AttrExprType::Ident(name("counter")),
            },
        ],
        children: vec![
            Element::Classic(Classic {
                name: name("p"),
                attrs: Vec::new(),
                children: Vec::new(),
            }),
            Element::Classic(Classic {
                name: name("span"),
                attrs: Vec::new(),
                children: vec![Element::Classic(Classic {
                    name: name("b"),
                    attrs: Vec::new(),
                    children: Vec::new(),
                })],
            }),
        ],
    });
    let tokens = serialize_el(&tree);
    let mut warnings: Vec<Diag> = Vec::new();
    let (parsed, end) = Element::parse(&tokens, 0, &mut warnings).expect("parses");
    assert_eq!(end, tokens.len());
    match (&parsed, &tree) {
        (Element::Classic(p), Element::Classic(t)) => {
            assert_eq!(p.name.text, t.name.text);
            assert_eq!(p.attrs.len(), 2);
            assert_eq!(p.attrs[0].name, "class");
            assert!(matches!(&p.attrs[0].expr, AttrExprType::String(v) if v == "wide"));
            assert_eq!(p.attrs[1].namespace, "bind");
            assert!(matches!(&p.attrs[1].expr, AttrExprType::Ident(n) if n.text == "counter"));
            assert_eq!(p.children.len(), t.children.len());
            match (&p.children[1], &t.children[1]) {
                (Element::Classic(ps), Element::Classic(ts)) => {
                    assert_eq!(ps.name.text, ts.name.text);
                    assert_eq!(ps.children.len(), 1);
                }
                other => panic!("unexpected children: {:?}", other),
            }
        }
        other => panic!("unexpected round trip: {:?}", other),
    }
}

#[test]
fn token_texts_round_trip() {
    let tokens = lex("</ /> plop \"lit\" 42 <");
    let texts: Vec<String> = tokens.iter().map(code_generator::tokens::token_text).collect();
    assert_eq!(texts, vec!["</", "/>", "plop", "\"lit\"", "42", "<"]);
    assert!(matches!(tokens[0].kind, TokenKind::OpenClosing));
    assert!(matches!(tokens[1].kind, TokenKind::SelfClose));
}

/// A bare self-closing tag parses to a childless, attributeless element
/// consuming exactly its three tokens.
#[test]
fn self_closing_tag_shape() {
    let tokens = lex("<br/>");
    let mut warnings: Vec<Diag> = Vec::new();
    let (el, after) = Element::parse(&tokens, 0, &mut warnings).expect("parses");
    assert_eq!(after, 3);
    match el {
        Element::Classic(c) => {
            assert_eq!(c.name.text, "br");
            assert!(c.attrs.is_empty());
            assert!(c.children.is_empty());
        }
        other => panic!("unexpected element: {:?}", other),
    }
}

/// A stray closing tag is rejected where it stands.
#[test]
fn stray_closer_rejected() {
    let src = "</div>";
    let tokens = lex(src);
    let mut warnings: Vec<Diag> = Vec::new();
    let err = Element::parse(&tokens, 0, &mut warnings).expect_err("must fail");
    assert_eq!(err.primary.pos, 0);
    assert_eq!(err.primary.msg, "Inner element can't be parsed.");
}

/// A namespaced attribute without a code block draws the uselessness
/// warning at the attribute's first token.
#[test]
fn useless_namespace_warns() {
    let src = "<div a:b=\"x\"></div>";
    let tokens = lex(src);
    let mut warnings: Vec<Diag> = Vec::new();
    parse_root_with(&tokens, &mut warnings).expect("parses");
    assert_eq!(warnings.len(), 1);
    assert_eq!(warnings[0].primary.msg, "W001: Namespace is useless without code's block.");
    assert_eq!(warnings[0].primary.pos, src.find("a:b").unwrap());
}

fn parse_root_with(tokens: &Vec<Token>, warnings: &mut Vec<Diag>) -> Result<Vec<Element>, Diag> {
    let (Root(elements), _) = Root::parse(tokens, 0, warnings)?;
    Ok(elements)
}

/// The lexer's tokens come in source order and reproduce the source at
/// their positions; an identifier run is maximal.
#[test]
fn token_positions_and_maximality() {
    let tokens = lex("ab3x  <p>");
    assert_eq!(tokens.len(), 4);
    match &tokens[0].kind {
        TokenKind::Ident(s) => assert_eq!(s, "ab3x"),
        other => panic!("unexpected: {:?}", other),
    }
    assert_eq!(tokens[0].pos, 0);
    assert_eq!(tokens[1].pos, 6);
    assert_eq!(tokens[2].pos, 7);
    assert_eq!(tokens[3].pos, 8);
    for w in tokens.windows(2) {
        assert!(w[0].pos < w[1].pos);
    }
}

/// A repeated section wrapping a serialized tag forest round-trips: the
/// children come back in shape and the cursor lands after `{/for}`.
#[test]
fn for_block_with_children_round_trips() {
    let tokens = lex("{for item in items}<p></p><div><span></span></div>{/for}");
    let mut warnings: Vec<Diag> = Vec::new();
    let (el, after) = Element::parse(&tokens, 0, &mut warnings).expect("parses");
    assert_eq!(after, tokens.len());
    match el {
        Element::ExprElement(ExprElement::For { pat, children, .. }) => {
            match pat {
                code_generator::html::ForPat::Ident(n) => assert_eq!(n.text, "item"),
                other => panic!("unexpected pattern: {:?}", other),
            }
            assert_eq!(children.len(), 2);
            match &children[1] {
                Element::Classic(c) => {
                    assert_eq!(c.name.text, "div");
                    assert_eq!(c.children.len(), 1);
                }
                other => panic!("unexpected child: {:?}", other),
            }
        }
        other => panic!("unexpected element: {:?}", other),
    }
}
