//! The element tree: the parsed, immutable representation of one template.
//!
//! A template is a forest of elements: ordinary tags with attributes and
//! children, control-flow blocks (`{for ...}` / `{if ...}` chains),
//! interpolations (a bare identifier, a string literal, or an arbitrary
//! expression block), verbatim text runs and comments.

use vstd::prelude::*;
use crate::diag::Diag;
use crate::expr::Expr;
use crate::expr::ExprV;
use crate::expr::Name;
use crate::expr::NameV;
use crate::expr::view_expr;
use crate::expr_parse::ident_at;
use crate::expr_parse::is_keyword;
use crate::expr_parse::is_punct;
use crate::expr_parse::lone_ident_at;
use crate::expr_parse::parse_block;
use crate::expr_parse::parse_expr;
use crate::expr_parse::pos_at;
use crate::strutil::chars_of;
use crate::strutil::push_char;
use crate::strutil::str_eq;
use crate::tokens::token_text;
use crate::tokens::token_text_spec;
use crate::tokens::Token;
use crate::tokens::TokenKind;
use vstd::string::StringExecFns;

verus! {

/// The value of one attribute.
#[derive(Debug)]
pub enum AttrExprType {
    /// A literal string value: quoted, a bare word, or omitted (empty).
    String(String),
    /// A brace block holding exactly one identifier.
    Ident(Name),
    /// A brace block holding an arbitrary expression (experimental).
    Block(Expr),
}

/// One attribute: `namespace:name=value`, the namespace possibly empty.
#[derive(Debug)]
pub struct Attribute {
    pub name: String,
    pub expr: AttrExprType,
    pub namespace: String,
}

/// One branch of an `{if ...}` chain; a trailing `{else}` is encoded as a
/// branch whose condition is the literal `true`.
#[derive(Debug)]
pub struct Condition {
    pub expr: Expr,
    pub children: Vec<Element>,
}

/// The loop pattern of a `{for ...}` block. Only a single identifier is
/// supported by generation; other shapes are kept with their offset so the
/// generator can warn and skip.
#[derive(Debug)]
pub enum ForPat {
    Ident(Name),
    Other(usize),
}

/// A control-flow block or interpolation.
#[derive(Debug)]
pub enum ExprElement {
    For { pat: ForPat, expr: Expr, children: Vec<Element> },
    If { conditions: Vec<Condition> },
    Block(Expr),
    Ident(Name),
    Lit(String),
}

/// An ordinary tag: `<name attr*>children</name>` or `<name attr*/>`.
#[derive(Debug)]
pub struct Classic {
    pub name: Name,
    pub attrs: Vec<Attribute>,
    pub children: Vec<Element>,
}

/// One node of the element tree.
#[derive(Debug)]
pub enum Element {
    Classic(Classic),
    ExprElement(ExprElement),
    Comment(String),
    Text(String),
}

/// A whole template: the list of top-level elements.
#[derive(Debug)]
pub struct Root(pub Vec<Element>);

/// Mathematical image of an attribute value.
pub ghost enum AttrExprTypeV {
    String(Seq<char>),
    Ident(NameV),
    Block(ExprV),
}

pub ghost struct AttrV {
    pub name: Seq<char>,
    pub expr: AttrExprTypeV,
    pub namespace: Seq<char>,
}

pub ghost struct CondV {
    pub expr: ExprV,
    pub children: Seq<ElV>,
}

pub ghost enum ForPatV {
    Ident(NameV),
    Other(int),
}

pub ghost enum ExprElV {
    For { pat: ForPatV, expr: ExprV, children: Seq<ElV> },
    If { conditions: Seq<CondV> },
    Block(ExprV),
    Ident(NameV),
    Lit(Seq<char>),
}

pub ghost struct ClassicV {
    pub name: NameV,
    pub attrs: Seq<AttrV>,
    pub children: Seq<ElV>,
}

/// Mathematical image of one element.
pub ghost enum ElV {
    Classic(ClassicV),
    ExprElement(ExprElV),
    Comment(Seq<char>),
    Text(Seq<char>),
}

pub open spec fn view_attr(a: Attribute) -> AttrV {
    AttrV {
        name: a.name@,
        expr: match a.expr {
            AttrExprType::String(s) => AttrExprTypeV::String(s@),
            AttrExprType::Ident(n) => AttrExprTypeV::Ident(n@),
            AttrExprType::Block(e) => AttrExprTypeV::Block(view_expr(e)),
        },
        namespace: a.namespace@,
    }
}

pub open spec fn view_attrs(s: Seq<Attribute>) -> Seq<AttrV>
    decreases s,
{
    if s.len() == 0 {
        Seq::empty()
    } else {
        seq![view_attr(s[0])] + view_attrs(s.skip(1))
    }
}

pub open spec fn view_el(e: Element) -> ElV
    decreases e,
{
    match e {
        Element::Classic(c) => ElV::Classic(
            ClassicV { name: c.name@, attrs: view_attrs(c.attrs@), children: view_els(c.children@) },
        ),
        Element::ExprElement(x) => ElV::ExprElement(view_expr_el(x)),
        Element::Comment(s) => ElV::Comment(s@),
        Element::Text(s) => ElV::Text(s@),
    }
}

pub open spec fn view_expr_el(x: ExprElement) -> ExprElV
    decreases x,
{
    match x {
        ExprElement::For { pat, expr, children } => ExprElV::For {
            pat: match pat {
                ForPat::Ident(n) => ForPatV::Ident(n@),
                ForPat::Other(p) => ForPatV::Other(p as int),
            },
            expr: view_expr(expr),
            children: view_els(children@),
        },
        ExprElement::If { conditions } => ExprElV::If { conditions: view_conds(conditions@) },
        ExprElement::Block(e) => ExprElV::Block(view_expr(e)),
        ExprElement::Ident(n) => ExprElV::Ident(n@),
        ExprElement::Lit(s) => ExprElV::Lit(s@),
    }
}

pub open spec fn view_cond(c: Condition) -> CondV
    decreases c,
{
    CondV { expr: view_expr(c.expr), children: view_els(c.children@) }
}

pub open spec fn view_conds(s: Seq<Condition>) -> Seq<CondV>
    decreases s,
{
    if s.len() == 0 {
        Seq::empty()
    } else {
        seq![view_cond(s[0])] + view_conds(s.skip(1))
    }
}

pub open spec fn view_els(s: Seq<Element>) -> Seq<ElV>
    decreases s,
{
    if s.len() == 0 {
        Seq::empty()
    } else {
        seq![view_el(s[0])] + view_els(s.skip(1))
    }
}

impl View for Element {
    type V = ElV;

    open spec fn view(&self) -> ElV {
        view_el(*self)
    }
}

impl View for Attribute {
    type V = AttrV;

    open spec fn view(&self) -> AttrV {
        view_attr(*self)
    }
}

impl View for Root {
    type V = Seq<ElV>;

    open spec fn view(&self) -> Seq<ElV> {
        view_els(self.0@)
    }
}

/// Indexing view of [`view_els`].
pub proof fn lemma_view_els_props(s: Seq<Element>)
    ensures
        view_els(s).len() == s.len(),
        forall|i: int| 0 <= i < s.len() ==> view_els(s)[i] == view_el(s[i]),
    decreases s,
{
    if s.len() > 0 {
        lemma_view_els_props(s.skip(1));
        assert forall|i: int| 0 <= i < s.len() implies view_els(s)[i] == view_el(s[i]) by {
            if i > 0 {
                assert(view_els(s)[i] == view_els(s.skip(1))[i - 1]);
                assert(s.skip(1)[i - 1] == s[i]);
            }
        }
    }
}

/// Appending one element appends one view.
pub proof fn lemma_view_els_push(s: Seq<Element>, e: Element)
    ensures
        view_els(s.push(e)) == view_els(s).push(view_el(e)),
    decreases s,
{
    if s.len() == 0 {
        assert(s.push(e).skip(1) =~= Seq::<Element>::empty());
        assert(s.push(e)[0] == e);
        assert(view_els(s.push(e)) == seq![view_el(e)] + view_els(Seq::<Element>::empty()));
        assert(view_els(s.push(e)) =~= view_els(s).push(view_el(e)));
    } else {
        lemma_view_els_push(s.skip(1), e);
        assert(s.push(e).skip(1) =~= s.skip(1).push(e));
        assert(s.push(e)[0] == s[0]);
        let h = seq![view_el(s[0])];
        let t = view_els(s.skip(1));
        assert(view_els(s.push(e)) == h + t.push(view_el(e)));
        assert((h + t).push(view_el(e)) =~= h + t.push(view_el(e)));
    }
}

/// Indexing view of [`view_attrs`].
pub proof fn lemma_view_attrs_props(s: Seq<Attribute>)
    ensures
        view_attrs(s).len() == s.len(),
        forall|i: int| 0 <= i < s.len() ==> view_attrs(s)[i] == view_attr(s[i]),
    decreases s,
{
    if s.len() > 0 {
        lemma_view_attrs_props(s.skip(1));
        assert forall|i: int| 0 <= i < s.len() implies view_attrs(s)[i] == view_attr(s[i]) by {
            if i > 0 {
                assert(view_attrs(s)[i] == view_attrs(s.skip(1))[i - 1]);
                assert(s.skip(1)[i - 1] == s[i]);
            }
        }
    }
}

/// Appending one attribute appends one view.
pub proof fn lemma_view_attrs_push(s: Seq<Attribute>, a: Attribute)
    ensures
        view_attrs(s.push(a)) == view_attrs(s).push(view_attr(a)),
    decreases s,
{
    if s.len() == 0 {
        assert(s.push(a).skip(1) =~= Seq::<Attribute>::empty());
        assert(s.push(a)[0] == a);
        assert(view_attrs(s.push(a)) == seq![view_attr(a)] + view_attrs(Seq::<Attribute>::empty()));
        assert(view_attrs(s.push(a)) =~= view_attrs(s).push(view_attr(a)));
    } else {
        lemma_view_attrs_push(s.skip(1), a);
        assert(s.push(a).skip(1) =~= s.skip(1).push(a));
        assert(s.push(a)[0] == s[0]);
        let h = seq![view_attr(s[0])];
        let t = view_attrs(s.skip(1));
        assert(view_attrs(s.push(a)) == h + t.push(view_attr(a)));
        assert((h + t).push(view_attr(a)) =~= h + t.push(view_attr(a)));
    }
}

/// Indexing view of [`view_conds`].
pub proof fn lemma_view_conds_props(s: Seq<Condition>)
    ensures
        view_conds(s).len() == s.len(),
        forall|i: int| 0 <= i < s.len() ==> view_conds(s)[i] == view_cond(s[i]),
    decreases s,
{
    if s.len() > 0 {
        lemma_view_conds_props(s.skip(1));
        assert forall|i: int| 0 <= i < s.len() implies view_conds(s)[i] == view_cond(s[i]) by {
            if i > 0 {
                assert(view_conds(s)[i] == view_conds(s.skip(1))[i - 1]);
                assert(s.skip(1)[i - 1] == s[i]);
            }
        }
    }
}

/// Appending one condition appends one view.
pub proof fn lemma_view_conds_push(s: Seq<Condition>, c: Condition)
    ensures
        view_conds(s.push(c)) == view_conds(s).push(view_cond(c)),
    decreases s,
{
    if s.len() == 0 {
        assert(s.push(c).skip(1) =~= Seq::<Condition>::empty());
        assert(s.push(c)[0] == c);
        assert(view_conds(s.push(c)) == seq![view_cond(c)] + view_conds(Seq::<Condition>::empty()));
        assert(view_conds(s.push(c)) =~= view_conds(s).push(view_cond(c)));
    } else {
        lemma_view_conds_push(s.skip(1), c);
        assert(s.push(c).skip(1) =~= s.skip(1).push(c));
        assert(s.push(c)[0] == s[0]);
        let h = seq![view_cond(s[0])];
        let t = view_conds(s.skip(1));
        assert(view_conds(s.push(c)) == h + t.push(view_cond(c)));
        assert((h + t).push(view_cond(c)) =~= h + t.push(view_cond(c)));
    }
}


/// The two-location diagnostic for a closing name that does not match its
/// opener: one marker at the closer, one at the opener.
pub fn check_tag_name(name: &Name, close_name: &Name) -> (r: Result<(), Diag>)
    ensures
        r is Ok <==> close_name.text@ == name.text@,
        r matches Err(d) ==> {
            &&& d.primary.pos == close_name.pos
            &&& d.primary.msg@
                == "Closing element's name does not match an opening element's name."@
            &&& d.secondary matches Some(sec) && sec.pos == name.pos && sec.msg@
                == "No closing element's name match this elements name."@
        },
{
    if str_eq(close_name.text.as_str(), name.text.as_str()) {
        Ok(())
    } else {
        Err(
            Diag::paired(
                close_name.pos,
                String::from_str(
                    "Closing element's name does not match an opening element's name.",
                ),
                name.pos,
                String::from_str("No closing element's name match this elements name."),
            ),
        )
    }
}

/// A paired diagnostic for mismatched control-flow closers.
pub fn double_error(pos_1: usize, msg_1: &str, pos_2: usize, msg_2: &str) -> (r: Diag)
    ensures
        r.primary.pos == pos_1,
        r.primary.msg@ == msg_1@,
        r.secondary matches Some(sec) && sec.pos == pos_2 && sec.msg@ == msg_2@,
{
    Diag::paired(pos_1, String::from_str(msg_1), pos_2, String::from_str(msg_2))
}

/// Whether the punctuation characters a token prints contain the given
/// one: a lone punctuation token prints itself, and the fused closers
/// print their two characters; no other token offers punctuation.
pub open spec fn punct_has_char(k: crate::tokens::TokK, c: char) -> bool {
    match k {
        crate::tokens::TokK::Punct(p) => p == c,
        crate::tokens::TokK::OpenClosing => c == '<' || c == '/',
        crate::tokens::TokK::SelfClose => c == '/' || c == '>',
        _ => false,
    }
}

/// Captures token text verbatim until the given punctuation sequence has
/// been matched, consuming it; fused punctuation tokens count character
/// by character. Fails when the sequence never appears.
pub fn parse_string_until_string(tokens: &Vec<Token>, pos: usize, target_str: &str) -> (r: Result<
    (String, usize),
    Diag,
>)
    requires
        pos <= tokens@.len(),
        tokens@.len() + 3 <= usize::MAX,
    ensures
        r matches Ok(p) ==> pos <= p.1 <= tokens@.len(),
        r matches Ok(p) ==> target_str@.len() > 0 ==> p.0@ == texts_concat(
            tokens@,
            pos as int,
            p.1 as int,
        ),
        target_str@.len() == 1 && r is Err ==> forall|j: int|
            pos <= j < tokens@.len() ==> tokens@[j]@ != crate::tokens::TokK::Punct(
                target_str@[0],
            ),
        target_str@.len() == 1 && r is Err ==> forall|j: int|
            pos <= j < tokens@.len() ==> !punct_has_char(#[trigger] tokens@[j]@, target_str@[0]),
{
    let targets = chars_of(target_str);
    let tlen: usize = targets.len();
    if tlen == 0 {
        return Ok((String::new(), pos));
    }
    let mut out = String::new();
    let mut current_match: usize = 0;
    let mut at = pos;
    proof {
        assert(texts_concat(tokens@, pos as int, pos as int) =~= Seq::<char>::empty());
    }
    while at < tokens.len()
        invariant
            pos <= at <= tokens@.len(),
            tokens@.len() + 3 <= usize::MAX,
            tlen == targets@.len(),
            targets@ == target_str@,
            current_match < tlen,
            tlen > 0,
            out@ == texts_concat(tokens@, pos as int, at as int),
            tlen == 1 ==> forall|j: int|
                pos <= j < at ==> tokens@[j]@ != crate::tokens::TokK::Punct(targets@[0]),
            tlen == 1 ==> forall|j: int|
                pos <= j < at ==> !punct_has_char(#[trigger] tokens@[j]@, targets@[0]),
        decreases tokens@.len() - at,
    {
        let text = token_text(&tokens[at]);
        proof {
            lemma_texts_concat_snoc(tokens@, pos as int, at as int);
        }
        out.append(text.as_str());
        let is_puncts = match &tokens[at].kind {
            TokenKind::Punct(_) => true,
            TokenKind::OpenClosing => true,
            TokenKind::SelfClose => true,
            _ => false,
        };
        if is_puncts {
            let cs = chars_of(text.as_str());
            let mut k: usize = 0;
            while k < cs.len()
                invariant
                    k <= cs@.len(),
                    pos <= at < tokens@.len(),
                    tokens@.len() + 3 <= usize::MAX,
                    tlen == targets@.len(),
                    targets@ == target_str@,
                    current_match < tlen,
                    tlen > 0,
                    out@ == texts_concat(tokens@, pos as int, at + 1),
                    tlen == 1 ==> current_match == 0,
                    tlen == 1 ==> forall|m: int| 0 <= m < k ==> cs@[m] != targets@[0],
                decreases cs@.len() - k,
            {
                if cs[k] == targets[current_match] {
                    current_match = current_match + 1;
                    if current_match == tlen {
                        return Ok((out, at + 1));
                    }
                } else {
                    current_match = 0;
                }
                k = k + 1;
            }
            proof {
                if tlen == 1 {
                    assert(cs@ == token_text_spec(tokens@[at as int]@));
                    match tokens@[at as int].kind {
                        TokenKind::Punct(c) => {
                            assert(tokens@[at as int]@ == crate::tokens::TokK::Punct(c));
                            assert(cs@ =~= seq![c]);
                            assert(cs@[0] == c);
                            assert(c != targets@[0]);
                        },
                        TokenKind::OpenClosing => {
                            assert(tokens@[at as int]@ == crate::tokens::TokK::OpenClosing);
                            assert(cs@ =~= seq!['<', '/']);
                            assert(cs@[0] == '<' && cs@[1] == '/');
                            assert(!punct_has_char(tokens@[at as int]@, targets@[0]));
                        },
                        TokenKind::SelfClose => {
                            assert(tokens@[at as int]@ == crate::tokens::TokK::SelfClose);
                            assert(cs@ =~= seq!['/', '>']);
                            assert(cs@[0] == '/' && cs@[1] == '>');
                            assert(!punct_has_char(tokens@[at as int]@, targets@[0]));
                        },
                        _ => {},
                    }
                }
            }
        } else {
            current_match = 0;
        }
        proof {
            if tlen == 1 {
                assert forall|j: int|
                    pos <= j < at + 1 implies tokens@[j]@ != crate::tokens::TokK::Punct(
                    targets@[0],
                ) by {
                    if j == at {
                        match tokens@[at as int].kind {
                            TokenKind::Punct(c) => {
                                assert(token_text_spec(tokens@[at as int]@) == seq![c]);
                                assert(tokens@[at as int]@ == crate::tokens::TokK::Punct(c));
                            },
                            _ => {},
                        }
                    }
                }
                assert forall|j: int|
                    pos <= j < at + 1 implies !punct_has_char(
                    #[trigger] tokens@[j]@,
                    targets@[0],
                ) by {
                    if j == at {
                        match tokens@[at as int].kind {
                            TokenKind::Ident(_) => {},
                            TokenKind::LitStr(_) => {},
                            TokenKind::LitInt(_) => {},
                            _ => {},
                        }
                    }
                }
            }
        }
        at = at + 1;
    }
    let mut msg = String::from_str("no `");
    msg.append(target_str);
    msg.append("` was found after this point");
    Err(Diag::new(pos_at(tokens, pos), msg))
}

/// Whether a token ends a text run: a tag opener or a brace block.
pub open spec fn text_stop(t: Token) -> bool {
    match t@ {
        crate::tokens::TokK::Punct(c) => c == '<' || c == '{',
        crate::tokens::TokK::OpenClosing => true,
        _ => false,
    }
}

/// The concatenated printed texts of a token range.
pub open spec fn texts_concat(toks: Seq<Token>, from: int, to: int) -> Seq<char>
    decreases to - from,
{
    if from >= to {
        Seq::empty()
    } else {
        token_text_spec(toks[from]@) + texts_concat(toks, from + 1, to)
    }
}

/// Extending the range by one token appends its text.
pub proof fn lemma_texts_concat_snoc(toks: Seq<Token>, from: int, to: int)
    requires
        from <= to,
        0 <= to,
    ensures
        texts_concat(toks, from, to + 1) == texts_concat(toks, from, to) + token_text_spec(
            toks[to]@,
        ),
    decreases to - from,
{
    if from >= to {
        assert(texts_concat(toks, from + 1, to + 1) =~= Seq::<char>::empty());
        assert(texts_concat(toks, from, to) =~= Seq::<char>::empty());
        assert(texts_concat(toks, from, to + 1) =~= texts_concat(toks, from, to)
            + token_text_spec(toks[to]@));
    } else {
        lemma_texts_concat_snoc(toks, from + 1, to);
        assert((token_text_spec(toks[from]@) + texts_concat(toks, from + 1, to))
            + token_text_spec(toks[to]@) =~= token_text_spec(toks[from]@) + (texts_concat(
            toks,
            from + 1,
            to,
        ) + token_text_spec(toks[to]@)));
    }
}

/// Captures the verbatim text run — the printed texts of the tokens,
/// concatenated — strictly before the next tag opener or brace block,
/// which is not consumed; an empty run signals a brace block or tag at
/// the cursor.
pub fn parse_text_element(tokens: &Vec<Token>, pos: usize) -> (r: (String, usize))
    requires
        pos <= tokens@.len(),
    ensures
        pos <= r.1 <= tokens@.len(),
        forall|j: int| pos <= j < r.1 ==> !text_stop(#[trigger] tokens@[j]),
        r.1 < tokens@.len() ==> text_stop(tokens@[r.1 as int]),
        r.0@ == texts_concat(tokens@, pos as int, r.1 as int),
{
    let mut out = String::new();
    let mut at = pos;
    proof {
        assert(texts_concat(tokens@, pos as int, pos as int) =~= Seq::<char>::empty());
    }
    while at < tokens.len() && !is_text_stop(&tokens[at])
        invariant
            pos <= at <= tokens@.len(),
            forall|j: int| pos <= j < at ==> !text_stop(#[trigger] tokens@[j]),
            out@ == texts_concat(tokens@, pos as int, at as int),
        decreases tokens@.len() - at,
    {
        proof {
            lemma_texts_concat_snoc(tokens@, pos as int, at as int);
        }
        out.append(token_text(&tokens[at]).as_str());
        at = at + 1;
    }
    (out, at)
}

/// Whether the token ends a text run.
fn is_text_stop(t: &Token) -> (r: bool)
    ensures
        r == text_stop(*t),
{
    match &t.kind {
        TokenKind::Punct(c) => *c == '<' || *c == '{',
        TokenKind::OpenClosing => true,
        _ => false,
    }
}

/// A brace block holding exactly one identifier, tried without consuming
/// anything on failure.
pub fn ident_in_brace(tokens: &Vec<Token>, pos: usize) -> (r: Option<(Name, usize)>)
    requires
        pos <= tokens@.len(),
        tokens@.len() + 3 <= usize::MAX,
    ensures
        r matches Some(p) ==> pos < p.1 <= tokens@.len(),
        r matches Some(p) ==> pos + 2 < tokens@.len() && tokens@[pos as int]@
            == crate::tokens::TokK::Punct('{') && tokens@[pos + 1]@
            == crate::tokens::TokK::Ident(p.0.text@) && tokens@[pos + 2]@
            == crate::tokens::TokK::Punct('}') && p.0.pos == tokens@[pos + 1].pos && p.1 == pos
            + 3,
        forall|t: Seq<char>|
            (pos + 2 < tokens@.len() && tokens@[pos as int]@ == crate::tokens::TokK::Punct('{')
                && tokens@[pos + 1]@ == crate::tokens::TokK::Ident(t) && tokens@[pos + 2]@
                == crate::tokens::TokK::Punct('}')) ==> (r matches Some(p) && p.0.text@ == t
                && p.1 == pos + 3),
{
    if is_punct(tokens, pos, '{') {
        match ident_at(tokens, pos + 1) {
            Some(n) => {
                if is_punct(tokens, pos + 2, '}') {
                    Some((n, pos + 3))
                } else {
                    None
                }
            },
            None => None,
        }
    } else {
        None
    }
}

/// A brace block holding exactly one string literal, tried without
/// consuming anything on failure; using one warns, as plain text should
/// not need the quoting.
pub fn lit_in_brace(tokens: &Vec<Token>, pos: usize, warnings: &mut Vec<Diag>) -> (r: Option<
    (String, usize),
>)
    requires
        pos <= tokens@.len(),
        tokens@.len() + 3 <= usize::MAX,
    ensures
        r matches Some(p) ==> pos < p.1 <= tokens@.len(),
        r matches Some(p) ==> pos + 2 < tokens@.len() && tokens@[pos + 1]@
            == crate::tokens::TokK::LitStr(p.0@) && p.1 == pos + 3,
        forall|v: Seq<char>|
            (pos + 2 < tokens@.len() && tokens@[pos as int]@ == crate::tokens::TokK::Punct('{')
                && tokens@[pos + 1]@ == crate::tokens::TokK::LitStr(v) && tokens@[pos + 2]@
                == crate::tokens::TokK::Punct('}')) ==> (r matches Some(p) && p.0@ == v && p.1
                == pos + 3),
{
    if is_punct(tokens, pos, '{') && pos + 1 < tokens.len() {
        let lit = match &tokens[pos + 1].kind {
            TokenKind::LitStr(s) => Some(s.clone()),
            _ => None,
        };
        match lit {
            Some(s) => {
                if is_punct(tokens, pos + 2, '}') {
                    warnings.push(
                        Diag::new(
                            tokens[pos + 1].pos,
                            String::from_str(
                                "A block containing a string is only needed to keep spaces.",
                            ),
                        ),
                    );
                    Some((s, pos + 3))
                } else {
                    None
                }
            },
            None => None,
        }
    } else {
        None
    }
}

/// Dash-separated identifier segments, joined with `-`: the shape of
/// attribute namespaces and names.
fn parse_dashed_name(tokens: &Vec<Token>, pos: usize) -> (r: Result<(String, usize, usize), Diag>)
    requires
        pos <= tokens@.len(),
        tokens@.len() + 3 <= usize::MAX,
    ensures
        r matches Ok(p) ==> pos < p.1 <= tokens@.len(),
        forall|t: Seq<char>|
            (pos < tokens@.len() && tokens@[pos as int]@ == crate::tokens::TokK::Ident(t) && !(pos
                + 1 < tokens@.len() && tokens@[pos + 1]@ == crate::tokens::TokK::Punct('-')))
                ==> (r matches Ok(p) && p.0@ == t && p.1 == pos + 1),
        r matches Ok(p) ==> pos < tokens@.len() && p.2 == tokens@[pos as int].pos,
{
    let first = match ident_at(tokens, pos) {
        Some(n) => n,
        None => {
            return Err(
                Diag::new(pos_at(tokens, pos), String::from_str("An attribute name is expected.")),
            );
        },
    };
    let start_pos = first.pos;
    let mut out = first.text;
    let mut at = pos + 1;
    while is_punct(tokens, at, '-')
        invariant
            pos < at <= tokens@.len(),
            tokens@.len() + 3 <= usize::MAX,
            !(pos + 1 < tokens@.len() && tokens@[pos + 1]@ == crate::tokens::TokK::Punct('-'))
                ==> at == pos + 1 && out@ == first.text@,
        decreases tokens@.len() - at,
    {
        match ident_at(tokens, at + 1) {
            Some(n) => {
                push_char(&mut out, '-');
                out.append(n.text.as_str());
                at = at + 2;
            },
            None => {
                break;
            },
        }
    }
    Ok((out, at, start_pos))
}

impl Attribute {
    /// Parses one attribute: `segment(-segment)* [: segment(-segment)*]
    /// [= value]`; on the serialization of a well-formed attribute it
    /// succeeds and returns that attribute's shape.
    #[verifier::rlimit(60)]
    pub fn parse(tokens: &Vec<Token>, pos: usize, warnings: &mut Vec<Diag>) -> (r: Result<
        (Attribute, usize),
        Diag,
    >)
        requires
            pos <= tokens@.len(),
            tokens@.len() + 3 <= usize::MAX,
        ensures
            r matches Ok(p) ==> pos < p.1 <= tokens@.len(),
            forall|av: AttrV|
                (wf_rt_attr(av) && prefix_at(tokens@, pos as int, ser_attr(av))) ==> (r matches Ok(
                    p,
                ) && same_shape_attr(view_attr(p.0), av) && p.1 == pos + ser_attr(av).len()),
            forall|t: Seq<char>|
                (pos < tokens@.len() && tokens@[pos as int]@ == crate::tokens::TokK::Ident(t)
                    && !(pos + 1 < tokens@.len() && (tokens@[pos + 1]@
                    == crate::tokens::TokK::Punct('-') || tokens@[pos + 1]@
                    == crate::tokens::TokK::Punct(':') || tokens@[pos + 1]@
                    == crate::tokens::TokK::Punct('=')))) ==> (r matches Ok(p) && p.0.name@ == t
                    && p.0.namespace@.len() == 0 && (p.0.expr matches AttrExprType::String(v)
                    && v@.len() == 0) && p.1 == pos + 1),
            forall|t: Seq<char>, v: Seq<char>|
                (pos + 2 < tokens@.len() && tokens@[pos as int]@ == crate::tokens::TokK::Ident(t)
                    && tokens@[pos + 1]@ == crate::tokens::TokK::Punct('=') && tokens@[pos + 2]@
                    == crate::tokens::TokK::Ident(v)) ==> (r matches Ok(p) && p.0.name@ == t
                    && p.0.namespace@.len() == 0 && (p.0.expr matches AttrExprType::String(v2)
                    && v2@ == v) && p.1 == pos + 3),
            r matches Ok(p) && p.0.namespace@.len() > 0 && p.0.expr is String ==> {
                &&& final(warnings)@.len() == old(warnings)@.len() + 1
                &&& final(warnings)@.take(old(warnings)@.len() as int) == old(warnings)@
                &&& final(warnings)@.last().primary.msg@
                    == "W001: Namespace is useless without code's block."@
                &&& final(warnings)@.last().primary.pos == tokens@[pos as int].pos
                &&& final(warnings)@.last().secondary is None
            },
            !(r matches Ok(p) && p.0.namespace@.len() > 0 && p.0.expr is String)
                ==> final(warnings)@ == old(warnings)@,
    {
        proof {
            assert forall|av: AttrV|
                wf_rt_attr(av) && prefix_at(tokens@, pos as int, ser_attr(av)) implies tokens@[pos as int]@
                matches crate::tokens::TokK::Ident(_) && !(tokens@[pos + 1]@
                matches crate::tokens::TokK::Punct(c) && c == '-') by {
                lemma_ser_attr_facts(av);
                if av.namespace.len() == 0 {
                    assert(ser_attr(av)[1] == crate::tokens::TokK::Punct('='));
                } else {
                    assert(ser_attr(av)[1] == crate::tokens::TokK::Punct(':'));
                }
            }
        }
        let (first_name, after_first, first_pos) = match parse_dashed_name(tokens, pos) {
            Ok(p) => p,
            Err(d) => {
                return Err(d);
            },
        };
        let mut namespace = first_name;
        let mut name: String;
        let mut at = after_first;
        if is_punct(tokens, at, ':') {
            proof {
                assert forall|av: AttrV|
                    wf_rt_attr(av) && prefix_at(tokens@, pos as int, ser_attr(av))
                        && av.namespace.len() > 0 implies tokens@[pos + 2]@
                    == crate::tokens::TokK::Ident(av.name) && !(tokens@[pos + 3]@
                    matches crate::tokens::TokK::Punct(c3) && c3 == '-') by {
                    assert(ser_attr(av)[2] == crate::tokens::TokK::Ident(av.name));
                    assert(ser_attr(av)[3] == crate::tokens::TokK::Punct('='));
                }
            }
            let (second_name, after_second, _) = match parse_dashed_name(tokens, at + 1) {
                Ok(p) => p,
                Err(d) => {
                    proof {
                        assert forall|av: AttrV|
                            !(wf_rt_attr(av) && prefix_at(tokens@, pos as int, ser_attr(av))) by {
                            if wf_rt_attr(av) && prefix_at(tokens@, pos as int, ser_attr(av)) {
                                lemma_ser_attr_facts(av);
                                if av.namespace.len() == 0 {
                                    assert(ser_attr(av)[1] == crate::tokens::TokK::Punct('='));
                                }
                            }
                        }
                    }
                    return Err(d);
                },
            };
            name = second_name;
            at = after_second;
        } else {
            name = namespace;
            namespace = String::new();
        }
        let expr: AttrExprType;
        if is_punct(tokens, at, '=') {
            at = at + 1;
            if at >= tokens.len() {
                proof {
                    assert forall|av: AttrV|
                        !(wf_rt_attr(av) && prefix_at(tokens@, pos as int, ser_attr(av))) by {
                        if wf_rt_attr(av) && prefix_at(tokens@, pos as int, ser_attr(av)) {
                            lemma_ser_attr_facts(av);
                            if av.namespace.len() == 0 {
                                assert(ser_attr(av)[1] == crate::tokens::TokK::Punct('='));
                            } else {
                                assert(ser_attr(av)[3] == crate::tokens::TokK::Punct('='));
                            }
                        }
                    }
                }
                return Err(
                    Diag::new(
                        pos_at(tokens, at),
                        String::from_str("An attribute value is expected."),
                    ),
                );
            }
            let lit = match &tokens[at].kind {
                TokenKind::LitStr(v) => Some(v.clone()),
                _ => None,
            };
            let bare = match &tokens[at].kind {
                TokenKind::Ident(v) => Some(v.clone()),
                _ => None,
            };
            match lit {
                Some(v) => {
                    expr = AttrExprType::String(v);
                    at = at + 1;
                },
                None => match bare {
                    Some(v) => {
                        expr = AttrExprType::String(v);
                        at = at + 1;
                    },
                    None => {
                        match ident_in_brace(tokens, at) {
                            Some((n, after)) => {
                                expr = AttrExprType::Ident(n);
                                at = after;
                            },
                            None => {
                                proof {
                                    assert forall|av: AttrV|
                                        !(wf_rt_attr(av) && prefix_at(
                                            tokens@,
                                            pos as int,
                                            ser_attr(av),
                                        )) by {
                                        if wf_rt_attr(av) && prefix_at(
                                            tokens@,
                                            pos as int,
                                            ser_attr(av),
                                        ) {
                                            lemma_ser_attr_facts(av);
                                            let vstart = if av.namespace.len() == 0 {
                                                2int
                                            } else {
                                                4int
                                            };
                                            if av.namespace.len() == 0 {
                                                assert(ser_attr(av)[1]
                                                    == crate::tokens::TokK::Punct('='));
                                                assert(tokens@[pos + 1]@
                                                    == crate::tokens::TokK::Punct('='));
                                            } else {
                                                assert(ser_attr(av)[1]
                                                    == crate::tokens::TokK::Punct(':'));
                                                assert(ser_attr(av)[3]
                                                    == crate::tokens::TokK::Punct('='));
                                                assert(tokens@[pos + 1]@
                                                    == crate::tokens::TokK::Punct(':'));
                                                assert(tokens@[pos + 2]@
                                                    == crate::tokens::TokK::Ident(av.name));
                                                assert(tokens@[pos + 3]@
                                                    == crate::tokens::TokK::Punct('='));
                                            }
                                            match av.expr {
                                                AttrExprTypeV::String(vv) => {
                                                    assert(ser_attr(av)[vstart]
                                                        == crate::tokens::TokK::LitStr(vv));
                                                    assert(tokens@[pos + vstart]@
                                                        == crate::tokens::TokK::LitStr(vv));
                                                },
                                                AttrExprTypeV::Ident(n2) => {
                                                    assert(ser_attr(av)[vstart]
                                                        == crate::tokens::TokK::Punct('{'));
                                                    assert(ser_attr(av)[vstart + 1]
                                                        == crate::tokens::TokK::Ident(n2.text));
                                                    assert(ser_attr(av)[vstart + 2]
                                                        == crate::tokens::TokK::Punct('}'));
                                                    assert(tokens@[pos + vstart]@
                                                        == crate::tokens::TokK::Punct('{'));
                                                    assert(tokens@[pos + vstart + 1]@
                                                        == crate::tokens::TokK::Ident(n2.text));
                                                    assert(tokens@[pos + vstart + 2]@
                                                        == crate::tokens::TokK::Punct('}'));
                                                },
                                                AttrExprTypeV::Block(_) => {},
                                            }
                                        }
                                    }
                                }
                                let (stmts, after) = match parse_block(tokens, at) {
                                    Ok(p) => p,
                                    Err(d) => {
                                        let mut msg = String::from_str("Error in rust block : ");
                                        msg.append(d.primary.msg.as_str());
                                        return Err(Diag::new(d.primary.pos, msg));
                                    },
                                };
                                expr = AttrExprType::Block(Expr::Block(stmts));
                                at = after;
                            },
                        }
                    },
                },
            }
        } else {
            expr = AttrExprType::String(String::new());
        }
        let useless_namespace = namespace.unicode_len() > 0 && match expr {
            AttrExprType::String(_) => true,
            _ => false,
        };
        if useless_namespace {
            warnings.push(
                Diag::new(
                    first_pos,
                    String::from_str("W001: Namespace is useless without code's block."),
                ),
            );
        }
        proof {
            assert forall|av: AttrV|
                wf_rt_attr(av) && prefix_at(tokens@, pos as int, ser_attr(av)) implies (
            same_shape_attr(view_attr(Attribute { name, namespace, expr }), av) && at == pos
                + ser_attr(av).len()) by {
                lemma_ser_attr_facts(av);
                assert(ser_attr(av)[0] == crate::tokens::TokK::Ident(
                    if av.namespace.len() == 0 {
                        av.name
                    } else {
                        av.namespace
                    },
                ));
                assert(tokens@[pos as int]@ == ser_attr(av)[0]);
                let vstart = if av.namespace.len() == 0 {
                    2int
                } else {
                    4int
                };
                if av.namespace.len() == 0 {
                    assert(ser_attr(av)[1] == crate::tokens::TokK::Punct('='));
                    assert(tokens@[pos + 1]@ == crate::tokens::TokK::Punct('='));
                    assert(av.namespace =~= Seq::<char>::empty());
                } else {
                    assert(ser_attr(av)[1] == crate::tokens::TokK::Punct(':'));
                    assert(ser_attr(av)[2] == crate::tokens::TokK::Ident(av.name));
                    assert(ser_attr(av)[3] == crate::tokens::TokK::Punct('='));
                    assert(tokens@[pos + 1]@ == crate::tokens::TokK::Punct(':'));
                    assert(tokens@[pos + 2]@ == crate::tokens::TokK::Ident(av.name));
                    assert(tokens@[pos + 3]@ == crate::tokens::TokK::Punct('='));
                }
                match av.expr {
                    AttrExprTypeV::String(vv) => {
                        assert(ser_attr(av)[vstart] == crate::tokens::TokK::LitStr(vv));
                        assert(tokens@[pos + vstart]@ == crate::tokens::TokK::LitStr(vv));
                    },
                    AttrExprTypeV::Ident(n2) => {
                        assert(ser_attr(av)[vstart] == crate::tokens::TokK::Punct('{'));
                        assert(ser_attr(av)[vstart + 1] == crate::tokens::TokK::Ident(n2.text));
                        assert(ser_attr(av)[vstart + 2] == crate::tokens::TokK::Punct('}'));
                        assert(tokens@[pos + vstart]@ == crate::tokens::TokK::Punct('{'));
                        assert(tokens@[pos + vstart + 1]@ == crate::tokens::TokK::Ident(n2.text));
                        assert(tokens@[pos + vstart + 2]@ == crate::tokens::TokK::Punct('}'));
                    },
                    AttrExprTypeV::Block(_) => {},
                }
            }
        }
        Ok((Attribute { name, namespace, expr }, at))
    }
}

/// The round-trip premise: a well-formed tag-fragment element's
/// serialization stands in the tokens at the cursor.
pub open spec fn rt_premise(toks: Seq<Token>, pos: int, ev: ElV) -> bool {
    wf_rt_el(ev) && prefix_at(toks, pos, ser_el(ev))
}

/// A bare self-closing tag at the cursor: `<`, a name, `/>`.
pub open spec fn self_close_premise(toks: Seq<Token>, pos: int, nm: Seq<char>) -> bool {
    &&& pos + 3 <= toks.len()
    &&& toks[pos]@ == crate::tokens::TokK::Punct('<')
    &&& toks[pos + 1]@ == crate::tokens::TokK::Ident(nm)
    &&& toks[pos + 2]@ == crate::tokens::TokK::SelfClose
}

/// A childless tag whose closer names another element: `<a></b>` with
/// `a` and `b` distinct.
pub open spec fn mismatch_premise(toks: Seq<Token>, pos: int, a: Seq<char>, b: Seq<char>) -> bool {
    &&& pos + 5 <= toks.len()
    &&& toks[pos]@ == crate::tokens::TokK::Punct('<')
    &&& toks[pos + 1]@ == crate::tokens::TokK::Ident(a)
    &&& toks[pos + 2]@ == crate::tokens::TokK::Punct('>')
    &&& toks[pos + 3]@ == crate::tokens::TokK::OpenClosing
    &&& toks[pos + 4]@ == crate::tokens::TokK::Ident(b)
    &&& a != b
}

impl Classic {
    /// Parses one ordinary tag from its `<`: name, attributes, then
    /// either `/>` or `>` children `</name>`, where the closing name must
    /// lexically equal the opening name or a paired diagnostic cites both.
    pub fn parse(tokens: &Vec<Token>, pos: usize, warnings: &mut Vec<Diag>) -> (r: Result<
        (Classic, usize),
        Diag,
    >)
        requires
            pos <= tokens@.len(),
            tokens@.len() + 3 <= usize::MAX,
        ensures
            r matches Ok(p) ==> pos < p.1 <= tokens@.len(),
            forall|ev: ElV|
                rt_premise(tokens@, pos as int, ev) ==> (r matches Ok(p) && same_shape_el(
                    view_el(Element::Classic(p.0)),
                    ev,
                ) && p.1 == pos + ser_el(ev).len()),
            forall|nm: Seq<char>|
                self_close_premise(tokens@, pos as int, nm) ==> (r matches Ok(p)
                    && p.0.name.text@ == nm && p.0.attrs@.len() == 0 && p.0.children@.len() == 0
                    && p.1 == pos + 3),
            forall|a: Seq<char>, b: Seq<char>|
                mismatch_premise(tokens@, pos as int, a, b) ==> (r matches Err(d) && {
                    &&& d.primary.pos == tokens@[pos + 4].pos
                    &&& d.primary.msg@
                        == "Closing element's name does not match an opening element's name."@
                    &&& d.secondary matches Some(sec) && sec.pos == tokens@[pos + 1].pos
                        && sec.msg@ == "No closing element's name match this elements name."@
                }),
        decreases tokens@.len() - pos, 14nat,
    {
        if !is_punct(tokens, pos, '<') {
            proof {
                assert forall|ev: ElV| !rt_premise(tokens@, pos as int, ev) by {
                    if wf_rt_el(ev) {
                        lemma_ser_classic_facts(ev);
                    }
                }
            }
            return Err(
                Diag::new(pos_at(tokens, pos), String::from_str("A tag must start with `<`.")),
            );
        }
        let mut at = pos + 1;
        match parse_string_until_string(tokens, at, ">") {
            Ok(_) => {},
            Err(d) => {
                proof {
                    reveal_strlit(">");
                    assert((">"@).len() == 1);
                    assert forall|ev: ElV| !rt_premise(tokens@, pos as int, ev) by {
                        if rt_premise(tokens@, pos as int, ev) {
                            lemma_ser_classic_facts(ev);
                            let alen = ser_attrs(ev->Classic_0.attrs).len() as int;
                            assert(tokens@[pos + 2 + alen]@ == crate::tokens::TokK::Punct('>'));
                        }
                    }
                    assert forall|nm: Seq<char>|
                        !self_close_premise(tokens@, pos as int, nm) by {
                        if self_close_premise(tokens@, pos as int, nm) {
                            assert(punct_has_char(tokens@[pos + 2]@, '>'));
                        }
                    }
                    assert forall|a: Seq<char>, b: Seq<char>|
                        !mismatch_premise(tokens@, pos as int, a, b) by {
                        if mismatch_premise(tokens@, pos as int, a, b) {
                            assert(punct_has_char(tokens@[pos + 2]@, '>'));
                        }
                    }
                }
                return Err(d);
            },
        }
        let name = match ident_at(tokens, at) {
            Some(n) => n,
            None => {
                proof {
                    assert forall|ev: ElV| !rt_premise(tokens@, pos as int, ev) by {
                        if rt_premise(tokens@, pos as int, ev) {
                            lemma_ser_classic_facts(ev);
                            assert(tokens@[pos + 1]@ == crate::tokens::TokK::Ident(
                                ev->Classic_0.name.text,
                            ));
                        }
                    }
                }
                return Err(
                    Diag::new(pos_at(tokens, at), String::from_str("Can't parse ident.")),
                );
            },
        };
        at = at + 1;
        let mut attrs: Vec<Attribute> = Vec::new();
        proof {
            assert forall|ev: ElV| #[trigger] rt_premise(tokens@, pos as int, ev) implies {
                &&& attrs@.len() <= ev->Classic_0.attrs.len()
                &&& same_shape_attrs(
                    view_attrs(attrs@),
                    ev->Classic_0.attrs.take(attrs@.len() as int),
                )
                &&& at == pos + 2 + ser_attrs(
                    ev->Classic_0.attrs.take(attrs@.len() as int),
                ).len()
            } by {
                assert(ev->Classic_0.attrs.take(0) =~= Seq::<AttrV>::empty());
                assert(view_attrs(attrs@).len() == 0);
            }
        }
        while at < tokens.len() && !is_punct(tokens, at, '>') && !matches!(
            &tokens[at].kind,
            TokenKind::SelfClose,
        )
            invariant
                pos < at <= tokens@.len(),
                tokens@.len() + 3 <= usize::MAX,
                forall|nm: Seq<char>|
                    self_close_premise(tokens@, pos as int, nm) ==> at == pos + 2 && attrs@.len()
                        == 0,
                forall|a: Seq<char>, b: Seq<char>|
                    mismatch_premise(tokens@, pos as int, a, b) ==> at == pos + 2 && attrs@.len()
                        == 0,
                forall|ev: ElV|
                    #[trigger] rt_premise(tokens@, pos as int, ev) ==> {
                        &&& attrs@.len() <= ev->Classic_0.attrs.len()
                        &&& same_shape_attrs(
                            view_attrs(attrs@),
                            ev->Classic_0.attrs.take(attrs@.len() as int),
                        )
                        &&& at == pos + 2 + ser_attrs(
                            ev->Classic_0.attrs.take(attrs@.len() as int),
                        ).len()
                    },
            decreases tokens@.len() - at,
        {
            let ghost pre_attrs = attrs@;
            let ghost pre_at = at as int;
            proof {
                assert forall|nm: Seq<char>| !self_close_premise(tokens@, pos as int, nm) by {
                    if self_close_premise(tokens@, pos as int, nm) {
                        assert(tokens@[at as int]@ == crate::tokens::TokK::SelfClose);
                    }
                }
                assert forall|a: Seq<char>, b: Seq<char>|
                    !mismatch_premise(tokens@, pos as int, a, b) by {
                    if mismatch_premise(tokens@, pos as int, a, b) {
                        assert(tokens@[at as int]@ == crate::tokens::TokK::Punct('>'));
                    }
                }
            }
            proof {
                assert forall|ev: ElV|
                    #[trigger] rt_premise(tokens@, pos as int, ev) implies pre_attrs.len()
                    < ev->Classic_0.attrs.len() by {
                    lemma_ser_classic_facts(ev);
                    let avs = ev->Classic_0.attrs;
                    let k = pre_attrs.len() as int;
                    if k >= avs.len() {
                        assert(k == avs.len());
                        assert(avs.take(k) =~= avs);
                        assert(tokens@[pre_at]@ == ser_el(ev)[2 + ser_attrs(avs).len() as int]);
                    }
                }
                assert forall|ev: ElV|
                    #[trigger] rt_premise(tokens@, pos as int, ev) implies (wf_rt_attr(
                    ev->Classic_0.attrs[pre_attrs.len() as int],
                ) && prefix_at(
                    tokens@,
                    pre_at,
                    ser_attr(ev->Classic_0.attrs[pre_attrs.len() as int]),
                )) by {
                    lemma_ser_classic_facts(ev);
                    let avs = ev->Classic_0.attrs;
                    let k = pre_attrs.len() as int;
                    lemma_ser_attrs_split(avs, k);
                    let av = avs[k];
                    assert(avs.skip(k)[0] == av);
                    assert(ser_attrs(avs.skip(k)) == ser_attr(av) + ser_attrs(
                        avs.skip(k).skip(1),
                    ));
                    assert forall|m: int| 0 <= m < ser_attr(av).len() implies tokens@[pre_at + m]@
                        == ser_attr(av)[m] by {
                        let q = ser_attrs(avs.take(k)).len() + m;
                        assert(ser_attrs(avs)[q] == (ser_attrs(avs.take(k)) + ser_attrs(
                            avs.skip(k),
                        ))[q]);
                        assert(ser_attrs(avs.skip(k))[m] == ser_attr(av)[m]);
                        assert(tokens@[pos + 2 + q]@ == ser_el(ev)[2 + q]);
                    }
                }
            }
            let (attr, after) = match Attribute::parse(tokens, at, warnings) {
                Ok(p) => p,
                Err(d) => {
                    proof {
                        assert forall|ev: ElV| !rt_premise(tokens@, pos as int, ev) by {
                            if rt_premise(tokens@, pos as int, ev) {
                                assert(wf_rt_attr(
                                    ev->Classic_0.attrs[pre_attrs.len() as int],
                                ) && prefix_at(
                                    tokens@,
                                    pre_at,
                                    ser_attr(ev->Classic_0.attrs[pre_attrs.len() as int]),
                                ));
                            }
                        }
                    }
                    return Err(d);
                },
            };
            attrs.push(attr);
            at = after;
            proof {
                lemma_view_attrs_push(pre_attrs, attr);
                assert forall|ev: ElV| #[trigger] rt_premise(tokens@, pos as int, ev) implies {
                    &&& attrs@.len() <= ev->Classic_0.attrs.len()
                    &&& same_shape_attrs(
                        view_attrs(attrs@),
                        ev->Classic_0.attrs.take(attrs@.len() as int),
                    )
                    &&& at == pos + 2 + ser_attrs(
                        ev->Classic_0.attrs.take(attrs@.len() as int),
                    ).len()
                } by {
                    let avs = ev->Classic_0.attrs;
                    let k = pre_attrs.len() as int;
                    assert(k < avs.len());
                    let av = avs[k];
                    assert(wf_rt_attr(av) && prefix_at(tokens@, pre_at, ser_attr(av)));
                    assert(same_shape_attr(view_attr(attr), av));
                    assert(after == pre_at + ser_attr(av).len());
                    assert(avs.take(k + 1) =~= avs.take(k).push(av));
                    lemma_ser_attrs_snoc(avs.take(k), av);
                    assert forall|i: int|
                        0 <= i < view_attrs(attrs@).len() implies same_shape_attr(
                        #[trigger] view_attrs(attrs@)[i],
                        avs.take(k + 1)[i],
                    ) by {
                        lemma_view_attrs_props(attrs@);
                        if i < k {
                            assert(view_attrs(pre_attrs)[i] == view_attrs(attrs@)[i]) by {
                                lemma_view_attrs_props(pre_attrs);
                                assert(pre_attrs[i] == attrs@[i]);
                            }
                            assert(same_shape_attr(view_attrs(pre_attrs)[i], avs.take(k)[i]));
                        }
                    }
                }
            }
        }
        if at >= tokens.len() {
            proof {
                assert forall|ev: ElV| !rt_premise(tokens@, pos as int, ev) by {
                    if rt_premise(tokens@, pos as int, ev) {
                        lemma_ser_classic_facts(ev);
                        let avs = ev->Classic_0.attrs;
                        let k = attrs@.len() as int;
                        lemma_ser_attrs_split(avs, k);
                        assert(ser_attrs(avs.take(k)).len() <= ser_attrs(avs).len());
                    }
                }
                assert forall|nm: Seq<char>| !self_close_premise(tokens@, pos as int, nm) by {}
                assert forall|a: Seq<char>, b: Seq<char>|
                    !mismatch_premise(tokens@, pos as int, a, b) by {}
            }
            return Err(
                Diag::new(name.pos, String::from_str("Element is not closed.")),
            );
        }
        proof {
            assert forall|ev: ElV|
                #[trigger] rt_premise(tokens@, pos as int, ev) implies attrs@.len()
                == ev->Classic_0.attrs.len() && at == pos + 2 + ser_attrs(
                ev->Classic_0.attrs,
            ).len() by {
                lemma_ser_classic_facts(ev);
                let avs = ev->Classic_0.attrs;
                let k = attrs@.len() as int;
                if k < avs.len() {
                    lemma_ser_attrs_split(avs, k);
                    lemma_ser_attr_facts(avs[k]);
                    assert(avs.skip(k)[0] == avs[k]);
                    assert(ser_attrs(avs.skip(k))[0] == ser_attr(avs[k])[0]);
                    assert(ser_attrs(avs)[ser_attrs(avs.take(k)).len() as int] == (ser_attrs(
                        avs.take(k),
                    ) + ser_attrs(avs.skip(k)))[ser_attrs(avs.take(k)).len() as int]);
                    assert(tokens@[at as int]@ == ser_el(ev)[2 + ser_attrs(avs.take(k)).len() as int]);
                    assert(tokens@[at as int]@ matches crate::tokens::TokK::Ident(_));
                } else {
                    assert(avs.take(k) =~= avs);
                }
            }
        }
        let self_close = matches!(&tokens[at].kind, TokenKind::SelfClose);
        if self_close {
            proof {
                assert forall|ev: ElV| !rt_premise(tokens@, pos as int, ev) by {
                    if rt_premise(tokens@, pos as int, ev) {
                        lemma_ser_classic_facts(ev);
                        assert(tokens@[at as int]@ == ser_el(ev)[2 + ser_attrs(
                            ev->Classic_0.attrs,
                        ).len() as int]);
                    }
                }
                assert forall|a: Seq<char>, b: Seq<char>|
                    !mismatch_premise(tokens@, pos as int, a, b) by {
                    if mismatch_premise(tokens@, pos as int, a, b) {
                        assert(tokens@[at as int]@ == crate::tokens::TokK::Punct('>'));
                    }
                }
            }
            at = at + 1;
            return Ok((Classic { name, attrs, children: Vec::new() }, at));
        }
        proof {
            assert forall|nm: Seq<char>| !self_close_premise(tokens@, pos as int, nm) by {
                if self_close_premise(tokens@, pos as int, nm) {
                    assert(tokens@[at as int]@ == crate::tokens::TokK::SelfClose);
                }
            }
        }
        at = at + 1;
        let ghost header = {
            |ev: ElV| 3 + ser_attrs(ev->Classic_0.attrs).len() as int
        };
        let mut children: Vec<Element> = Vec::new();
        proof {
            assert forall|ev: ElV| #[trigger] rt_premise(tokens@, pos as int, ev) implies {
                &&& children@.len() <= ev->Classic_0.children.len()
                &&& same_shape_els(
                    view_els(children@),
                    ev->Classic_0.children.take(children@.len() as int),
                )
                &&& at == pos + header(ev) + ser_els(
                    ev->Classic_0.children.take(children@.len() as int),
                ).len()
            } by {
                assert(ev->Classic_0.children.take(0) =~= Seq::<ElV>::empty());
                assert(view_els(children@).len() == 0);
            }
        }
        while at < tokens.len() && !matches!(&tokens[at].kind, TokenKind::OpenClosing)
            invariant
                pos < at <= tokens@.len(),
                tokens@.len() + 3 <= usize::MAX,
                forall|a: Seq<char>, b: Seq<char>|
                    mismatch_premise(tokens@, pos as int, a, b) ==> at == pos + 3
                        && children@.len() == 0,
                forall|nm: Seq<char>| !self_close_premise(tokens@, pos as int, nm),
                header == (|ev: ElV| 3 + ser_attrs(ev->Classic_0.attrs).len() as int),
                forall|ev: ElV|
                    #[trigger] rt_premise(tokens@, pos as int, ev) ==> {
                        &&& children@.len() <= ev->Classic_0.children.len()
                        &&& same_shape_els(
                            view_els(children@),
                            ev->Classic_0.children.take(children@.len() as int),
                        )
                        &&& at == pos + header(ev) + ser_els(
                            ev->Classic_0.children.take(children@.len() as int),
                        ).len()
                    },
            decreases tokens@.len() - at,
        {
            let ghost pre_children = children@;
            let ghost pre_at = at as int;
            proof {
                assert forall|a: Seq<char>, b: Seq<char>|
                    !mismatch_premise(tokens@, pos as int, a, b) by {
                    if mismatch_premise(tokens@, pos as int, a, b) {
                        assert(tokens@[at as int]@ == crate::tokens::TokK::OpenClosing);
                    }
                }
                assert forall|ev: ElV|
                    #[trigger] rt_premise(tokens@, pos as int, ev) implies pre_children.len()
                    < ev->Classic_0.children.len() by {
                    lemma_ser_classic_facts(ev);
                    let cs = ev->Classic_0.children;
                    let k = pre_children.len() as int;
                    if k >= cs.len() {
                        assert(k == cs.len());
                        assert(cs.take(k) =~= cs);
                        assert(tokens@[pre_at]@ == ser_el(ev)[ser_el(ev).len() - 3]);
                    }
                }
                assert forall|ev: ElV|
                    #[trigger] rt_premise(tokens@, pos as int, ev) implies rt_premise(
                    tokens@,
                    pre_at,
                    ev->Classic_0.children[pre_children.len() as int],
                ) by {
                    lemma_ser_classic_facts(ev);
                    let cs = ev->Classic_0.children;
                    let k = pre_children.len() as int;
                    lemma_wf_rt_els_index(cs, k);
                    lemma_ser_els_split(cs, k);
                    let child = cs[k];
                    assert(cs.skip(k)[0] == child);
                    assert(ser_els(cs.skip(k)) == ser_el(child) + ser_els(cs.skip(k).skip(1)));
                    assert forall|m: int| 0 <= m < ser_el(child).len() implies tokens@[pre_at + m]@
                        == ser_el(child)[m] by {
                        let q = ser_els(cs.take(k)).len() + m;
                        assert(ser_els(cs)[q] == (ser_els(cs.take(k)) + ser_els(cs.skip(k)))[q]);
                        assert(ser_els(cs.skip(k))[m] == ser_el(child)[m]);
                        assert(tokens@[pos + header(ev) + q]@ == ser_el(ev)[header(ev) + q]);
                    }
                }
            }
            let (child, after) = match Element::parse(tokens, at, warnings) {
                Ok(p) => p,
                Err(d) => {
                    proof {
                        assert forall|ev: ElV| !rt_premise(tokens@, pos as int, ev) by {
                            if rt_premise(tokens@, pos as int, ev) {
                                assert(rt_premise(
                                    tokens@,
                                    pre_at,
                                    ev->Classic_0.children[pre_children.len() as int],
                                ));
                            }
                        }
                    }
                    return Err(d);
                },
            };
            children.push(child);
            at = after;
            proof {
                lemma_view_els_push(pre_children, child);
                assert forall|ev: ElV| #[trigger] rt_premise(tokens@, pos as int, ev) implies {
                    &&& children@.len() <= ev->Classic_0.children.len()
                    &&& same_shape_els(
                        view_els(children@),
                        ev->Classic_0.children.take(children@.len() as int),
                    )
                    &&& at == pos + header(ev) + ser_els(
                        ev->Classic_0.children.take(children@.len() as int),
                    ).len()
                } by {
                    let cs = ev->Classic_0.children;
                    let k = pre_children.len() as int;
                    assert(k < cs.len());
                    let kid = cs[k];
                    assert(rt_premise(tokens@, pre_at, kid));
                    assert(same_shape_el(view_el(child), kid));
                    assert(after == pre_at + ser_el(kid).len());
                    lemma_wf_rt_els_index(cs, k);
                    lemma_ser_els_split(cs, k);
                    assert(cs.take(k + 1) =~= cs.take(k).push(kid));
                    lemma_ser_els_snoc(cs.take(k), kid);
                    lemma_same_shape_els_snoc(
                        view_els(pre_children),
                        cs.take(k),
                        view_el(child),
                        kid,
                    );
                }
            }
        }
        if at >= tokens.len() {
            proof {
                assert forall|ev: ElV| !rt_premise(tokens@, pos as int, ev) by {
                    if rt_premise(tokens@, pos as int, ev) {
                        lemma_ser_classic_facts(ev);
                        let cs = ev->Classic_0.children;
                        if children@.len() < cs.len() {
                            let k = children@.len() as int;
                            lemma_wf_rt_els_index(cs, k);
                            lemma_ser_els_split(cs, k);
                            lemma_ser_classic_facts(cs[k]);
                            assert(ser_els(cs.skip(k))[0] == ser_el(cs[k])[0]);
                            assert(ser_els(cs)[ser_els(cs.take(k)).len() as int] == (ser_els(
                                cs.take(k),
                            ) + ser_els(cs.skip(k)))[ser_els(cs.take(k)).len() as int]);
                            assert(tokens@[at as int]@ == crate::tokens::TokK::Punct('<'));
                        } else {
                            assert(cs.take(children@.len() as int) =~= cs);
                            assert(tokens@[at as int]@ == ser_el(ev)[ser_el(ev).len() - 3]);
                        }
                    }
                }
                assert forall|a: Seq<char>, b: Seq<char>|
                    !mismatch_premise(tokens@, pos as int, a, b) by {}
            }
            return Err(Diag::new(name.pos, String::from_str("Element is not closed.")));
        }
        proof {
            assert forall|ev: ElV|
                #[trigger] rt_premise(tokens@, pos as int, ev) implies children@.len()
                == ev->Classic_0.children.len() && at == pos + ser_el(ev).len() - 3
                && name.text@ == ev->Classic_0.name.text by {
                lemma_ser_classic_facts(ev);
                let cs = ev->Classic_0.children;
                if children@.len() < cs.len() {
                    let k = children@.len() as int;
                    lemma_wf_rt_els_index(cs, k);
                    lemma_ser_els_split(cs, k);
                    lemma_ser_classic_facts(cs[k]);
                    assert(ser_els(cs.skip(k))[0] == ser_el(cs[k])[0]);
                    assert(ser_els(cs)[ser_els(cs.take(k)).len() as int] == (ser_els(cs.take(k))
                        + ser_els(cs.skip(k)))[ser_els(cs.take(k)).len() as int]);
                    assert(tokens@[at as int]@ == crate::tokens::TokK::Punct('<'));
                } else {
                    assert(cs.take(children@.len() as int) =~= cs);
                }
                assert(tokens@[pos + 1]@ == crate::tokens::TokK::Ident(ev->Classic_0.name.text));
            }
        }
        at = at + 1;
        let close_name = match ident_at(tokens, at) {
            Some(n) => n,
            None => {
                proof {
                    assert forall|ev: ElV| !rt_premise(tokens@, pos as int, ev) by {
                        if rt_premise(tokens@, pos as int, ev) {
                            lemma_ser_classic_facts(ev);
                            assert(tokens@[at as int]@ == ser_el(ev)[ser_el(ev).len() - 2]);
                        }
                    }
                    assert forall|a: Seq<char>, b: Seq<char>|
                        !mismatch_premise(tokens@, pos as int, a, b) by {
                        if mismatch_premise(tokens@, pos as int, a, b) {
                            assert(tokens@[at as int]@ == crate::tokens::TokK::Ident(b));
                        }
                    }
                }
                return Err(
                    Diag::new(
                        pos_at(tokens, at),
                        String::from_str("A closing tag needs the element's name."),
                    ),
                );
            },
        };
        match check_tag_name(&name, &close_name) {
            Ok(_) => {
                proof {
                    assert forall|a: Seq<char>, b: Seq<char>|
                        !mismatch_premise(tokens@, pos as int, a, b) by {
                        if mismatch_premise(tokens@, pos as int, a, b) {
                            assert(tokens@[pos + 4]@ == crate::tokens::TokK::Ident(
                                close_name.text@,
                            ));
                            assert(tokens@[pos + 1]@ == crate::tokens::TokK::Ident(name.text@));
                            assert(close_name.text@ == b && name.text@ == a);
                        }
                    }
                }
            },
            Err(d) => {
                proof {
                    assert forall|ev: ElV| !rt_premise(tokens@, pos as int, ev) by {
                        if rt_premise(tokens@, pos as int, ev) {
                            lemma_ser_classic_facts(ev);
                            assert(tokens@[at as int]@ == ser_el(ev)[ser_el(ev).len() - 2]);
                        }
                    }
                    assert forall|a: Seq<char>, b: Seq<char>|
                        mismatch_premise(tokens@, pos as int, a, b) implies {
                        &&& d.primary.pos == tokens@[pos + 4].pos
                        &&& d.primary.msg@
                            == "Closing element's name does not match an opening element's name."@
                        &&& d.secondary matches Some(sec) && sec.pos == tokens@[pos + 1].pos
                            && sec.msg@
                            == "No closing element's name match this elements name."@
                    } by {
                        assert(close_name.pos == tokens@[pos + 4].pos);
                        assert(name.pos == tokens@[pos + 1].pos);
                    }
                }
                return Err(d);
            },
        }
        at = at + 1;
        if !is_punct(tokens, at, '>') {
            proof {
                assert forall|ev: ElV| !rt_premise(tokens@, pos as int, ev) by {
                    if rt_premise(tokens@, pos as int, ev) {
                        lemma_ser_classic_facts(ev);
                        assert(tokens@[at as int]@ == ser_el(ev)[ser_el(ev).len() - 1]);
                    }
                }
            }
            return Err(
                Diag::new(pos_at(tokens, at), String::from_str("A closing tag ends with `>`.")),
            );
        }
        proof {
            assert forall|ev: ElV| #[trigger] rt_premise(tokens@, pos as int, ev) implies (
            same_shape_el(
                view_el(Element::Classic(Classic { name, attrs, children })),
                ev,
            ) && at + 1 == pos + ser_el(ev).len()) by {
                lemma_ser_classic_facts(ev);
                let cs = ev->Classic_0.children;
                let avs = ev->Classic_0.attrs;
                assert(cs.take(cs.len() as int) =~= cs);
                assert(avs.take(avs.len() as int) =~= avs);
            }
        }
        Ok((Classic { name, attrs, children }, at + 1))
    }
}

/// The simplest repeated section: `{for pt in it}{/for}` with an
/// identifier pattern and an identifier iterable, and an empty body.
pub open spec fn for_empty_shape(toks: Seq<Token>, pos: int, pt: Seq<char>, it: Seq<char>) -> bool {
    &&& 0 <= pos
    &&& pos + 9 < toks.len()
    &&& toks[pos]@ == crate::tokens::TokK::Punct('{')
    &&& toks[pos + 1]@ == crate::tokens::TokK::Ident("for"@)
    &&& toks[pos + 2]@ == crate::tokens::TokK::Ident(pt)
    &&& pt != "in"@
    &&& toks[pos + 3]@ == crate::tokens::TokK::Ident("in"@)
    &&& toks[pos + 4]@ == crate::tokens::TokK::Ident(it)
    &&& it != "true"@
    &&& it != "false"@
    &&& toks[pos + 5]@ == crate::tokens::TokK::Punct('}')
    &&& toks[pos + 6]@ == crate::tokens::TokK::Punct('{')
    &&& toks[pos + 7]@ == crate::tokens::TokK::Punct('/')
    &&& toks[pos + 8]@ == crate::tokens::TokK::Ident("for"@)
    &&& toks[pos + 9]@ == crate::tokens::TokK::Punct('}')
}

/// A repeated section with an identifier pattern, an identifier
/// iterable, and a body that is the serialization of a well-formed
/// tag-fragment forest: `{for pt in it}` children `{/for}`.
pub open spec fn for_shape(
    toks: Seq<Token>,
    pos: int,
    pt: Seq<char>,
    it: Seq<char>,
    cvs: Seq<ElV>,
) -> bool {
    &&& 0 <= pos
    &&& toks[pos]@ == crate::tokens::TokK::Punct('{')
    &&& pos + 9 + ser_els(cvs).len() < toks.len()
    &&& toks[pos + 1]@ == crate::tokens::TokK::Ident("for"@)
    &&& toks[pos + 2]@ == crate::tokens::TokK::Ident(pt)
    &&& pt != "in"@
    &&& toks[pos + 3]@ == crate::tokens::TokK::Ident("in"@)
    &&& toks[pos + 4]@ == crate::tokens::TokK::Ident(it)
    &&& it != "true"@
    &&& it != "false"@
    &&& toks[pos + 5]@ == crate::tokens::TokK::Punct('}')
    &&& wf_rt_els(cvs)
    &&& prefix_at(toks, pos + 6, ser_els(cvs))
    &&& toks[pos + 6 + ser_els(cvs).len()]@ == crate::tokens::TokK::Punct('{')
    &&& toks[pos + 7 + ser_els(cvs).len()]@ == crate::tokens::TokK::Punct('/')
    &&& toks[pos + 8 + ser_els(cvs).len()]@ == crate::tokens::TokK::Ident("for"@)
    &&& toks[pos + 9 + ser_els(cvs).len()]@ == crate::tokens::TokK::Punct('}')
}

/// The simplest branch chain: `{if x}{/if}` with an identifier condition
/// and an empty branch.
pub open spec fn if_empty_shape(toks: Seq<Token>, pos: int, x: Seq<char>) -> bool {
    &&& 0 <= pos
    &&& pos + 7 < toks.len()
    &&& toks[pos]@ == crate::tokens::TokK::Punct('{')
    &&& toks[pos + 1]@ == crate::tokens::TokK::Ident("if"@)
    &&& toks[pos + 2]@ == crate::tokens::TokK::Ident(x)
    &&& x != "true"@
    &&& x != "false"@
    &&& toks[pos + 3]@ == crate::tokens::TokK::Punct('}')
    &&& toks[pos + 4]@ == crate::tokens::TokK::Punct('{')
    &&& toks[pos + 5]@ == crate::tokens::TokK::Punct('/')
    &&& toks[pos + 6]@ == crate::tokens::TokK::Ident("if"@)
    &&& toks[pos + 7]@ == crate::tokens::TokK::Punct('}')
}

impl ExprElement {
    /// Parses a brace block: `{for pattern in expr}` runs to `{/for}`,
    /// `{if expr}` begins a branch chain of `{else if expr}` and at most
    /// one `{else}` ended by `{/if}`, and a bare block is tried as one
    /// identifier, then one string literal, then an expression block. A
    /// brace block holding exactly one non-keyword identifier is owed an
    /// identifier interpolation, and one holding exactly one string
    /// literal a literal interpolation.
    pub fn parse(tokens: &Vec<Token>, pos: usize, warnings: &mut Vec<Diag>) -> (r: Result<
        (ExprElement, usize),
        Diag,
    >)
        requires
            pos <= tokens@.len(),
            tokens@.len() + 3 <= usize::MAX,
        ensures
            r matches Ok(p) ==> pos < p.1 <= tokens@.len(),
            forall|t: Seq<char>|
                (pos + 2 < tokens@.len() && tokens@[pos as int]@ == crate::tokens::TokK::Punct(
                    '{',
                ) && tokens@[pos + 1]@ == crate::tokens::TokK::Ident(t) && t != "for"@ && t
                    != "if"@ && tokens@[pos + 2]@ == crate::tokens::TokK::Punct('}')) ==> (r
                    matches Ok(p) && p.0 matches ExprElement::Ident(n) && n.text@ == t && n.pos
                    == tokens@[pos + 1].pos && p.1 == pos + 3),
            forall|v: Seq<char>|
                (pos + 2 < tokens@.len() && tokens@[pos as int]@ == crate::tokens::TokK::Punct(
                    '{',
                ) && tokens@[pos + 1]@ == crate::tokens::TokK::LitStr(v) && tokens@[pos + 2]@
                    == crate::tokens::TokK::Punct('}')) ==> (r matches Ok(p) && p.0
                    matches ExprElement::Lit(s2) && s2@ == v && p.1 == pos + 3),
            forall|pt: Seq<char>, it: Seq<char>|
                for_empty_shape(tokens@, pos as int, pt, it) ==> (r matches Ok(p) && p.0
                    matches ExprElement::For { pat, expr, children } && (pat
                    matches ForPat::Ident(n) && n.text@ == pt) && view_expr(expr)
                    == crate::expr::ExprV::Ident(
                    crate::expr::NameV { text: it, pos: tokens@[pos + 4].pos as int },
                ) && children@.len() == 0 && p.1 == pos + 10),
            forall|x: Seq<char>|
                if_empty_shape(tokens@, pos as int, x) ==> (r matches Ok(p) && p.0
                    matches ExprElement::If { conditions } && conditions@.len() == 1 && view_expr(
                    conditions@[0].expr,
                ) == crate::expr::ExprV::Ident(
                    crate::expr::NameV { text: x, pos: tokens@[pos + 2].pos as int },
                ) && conditions@[0].children@.len() == 0 && p.1 == pos + 8),
            forall|pt: Seq<char>, it: Seq<char>, cvs: Seq<ElV>|
                #[trigger] for_shape(tokens@, pos as int, pt, it, cvs) ==> (r matches Ok(p) && p.0
                    matches ExprElement::For { pat, expr, children } && (pat
                    matches ForPat::Ident(n) && n.text@ == pt) && view_expr(expr)
                    == crate::expr::ExprV::Ident(
                    crate::expr::NameV { text: it, pos: tokens@[pos + 4].pos as int },
                ) && same_shape_els(view_els(children@), cvs) && p.1 == pos + 10 + ser_els(
                    cvs,
                ).len()),
        decreases tokens@.len() - pos, 14nat,
    {
        if !is_punct(tokens, pos, '{') {
            return Err(
                Diag::new(
                    pos_at(tokens, pos),
                    String::from_str("A brace block is expected here."),
                ),
            );
        }
        if is_keyword(tokens, pos + 1, "for") {
            proof {
                reveal_strlit("for");
                reveal_strlit("if");
                reveal_strlit("in");
            }
            let for_pos = pos_at(tokens, pos + 1);
            let mut at = pos + 2;
            let pat_start = at;
            let mut idents_seen: usize = 0;
            let mut pat_name: Option<Name> = None;
            while at < tokens.len() && !is_keyword(tokens, at, "in")
                invariant
                    pat_start <= at <= tokens@.len(),
                    pos + 2 <= at,
                    pat_start == pos + 2,
                    tokens@.len() + 3 <= usize::MAX,
                    forall|pt: Seq<char>, it: Seq<char>|
                        for_empty_shape(tokens@, pos as int, pt, it) ==> ((at == pos + 2
                            && idents_seen == 0 && pat_name is None) || (at == pos + 3
                            && idents_seen == 1 && (pat_name matches Some(n) && n.text@ == pt
                            && n.pos == tokens@[pos + 2].pos))),
                    forall|pt: Seq<char>, it: Seq<char>, cvs: Seq<ElV>|
                        for_shape(tokens@, pos as int, pt, it, cvs) ==> ((at == pos + 2
                            && idents_seen == 0 && pat_name is None) || (at == pos + 3
                            && idents_seen == 1 && (pat_name matches Some(n) && n.text@ == pt
                            && n.pos == tokens@[pos + 2].pos))),
                decreases tokens@.len() - at,
            {
                match ident_at(tokens, at) {
                    Some(n) => {
                        if idents_seen == 0 {
                            pat_name = Some(n);
                        } else {
                            pat_name = None;
                        }
                        if idents_seen < usize::MAX {
                            idents_seen = idents_seen + 1;
                        }
                    },
                    None => {
                        pat_name = None;
                        idents_seen = 2;
                    },
                }
                at = at + 1;
            }
            if at >= tokens.len() {
                proof {
                    reveal_strlit("for");
                    reveal_strlit("if");
                    assert forall|pt: Seq<char>, it: Seq<char>|
                        !for_empty_shape(tokens@, pos as int, pt, it) by {
                        if for_empty_shape(tokens@, pos as int, pt, it) {
                            assert(("for"@).len() == 3);
                            assert(("if"@).len() == 2);
                        }
                    }
                    assert forall|pt: Seq<char>, it: Seq<char>, cvs: Seq<ElV>|
                        !for_shape(tokens@, pos as int, pt, it, cvs) by {
                        if for_shape(tokens@, pos as int, pt, it, cvs) {
                            assert(("for"@).len() == 3);
                            assert(("if"@).len() == 2);
                        }
                    }
                    assert forall|x: Seq<char>| !if_empty_shape(tokens@, pos as int, x) by {
                        if if_empty_shape(tokens@, pos as int, x) {
                            assert(("for"@).len() == 3);
                            assert(("if"@).len() == 2);
                            assert(("for"@) != ("if"@));
                        }
                    }
                }
                return Err(
                    Diag::new(for_pos, String::from_str("A for loop needs `in`.")),
                );
            }
            let pat = match pat_name {
                Some(n) => {
                    if at == pat_start + 1 {
                        ForPat::Ident(n)
                    } else {
                        ForPat::Other(pos_at(tokens, pat_start))
                    }
                },
                None => ForPat::Other(pos_at(tokens, pat_start)),
            };
            let (iter_expr, after_expr) = match parse_expr(tokens, at + 1, false) {
                Ok(p) => p,
                Err(_) => {
                    proof {
                        reveal_strlit("for");
                        reveal_strlit("if");
                        assert forall|pt: Seq<char>, it: Seq<char>|
                            !for_empty_shape(tokens@, pos as int, pt, it) by {
                            if for_empty_shape(tokens@, pos as int, pt, it) {
                                assert(("for"@).len() == 3);
                                assert(("if"@).len() == 2);
                                assert(lone_ident_at(tokens@, pos + 4, it));
                            }
                        }
                        assert forall|pt: Seq<char>, it: Seq<char>, cvs: Seq<ElV>|
                            !for_shape(tokens@, pos as int, pt, it, cvs) by {
                            if for_shape(tokens@, pos as int, pt, it, cvs) {
                                assert(("for"@).len() == 3);
                                assert(("if"@).len() == 2);
                                assert(lone_ident_at(tokens@, pos + 4, it));
                            }
                        }
                        assert forall|x: Seq<char>| !if_empty_shape(tokens@, pos as int, x) by {
                            if if_empty_shape(tokens@, pos as int, x) {
                                assert(("for"@).len() == 3);
                                assert(("if"@).len() == 2);
                            }
                        }
                    }
                    return Err(
                        Diag::new(
                            pos_at(tokens, at + 1),
                            String::from_str(
                                "An expression is required for `if`, `else if` and `for`.",
                            ),
                        ),
                    );
                },
            };
            proof {
                assert forall|pt: Seq<char>, it: Seq<char>|
                    for_empty_shape(tokens@, pos as int, pt, it) implies (after_expr == pos + 5
                        && view_expr(iter_expr) == crate::expr::ExprV::Ident(
                        crate::expr::NameV { text: it, pos: tokens@[pos + 4].pos as int },
                    )) by {
                    assert(lone_ident_at(tokens@, pos + 4, it));
                }
                assert forall|pt: Seq<char>, it: Seq<char>, cvs: Seq<ElV>|
                    for_shape(tokens@, pos as int, pt, it, cvs) implies (after_expr == pos + 5
                        && view_expr(iter_expr) == crate::expr::ExprV::Ident(
                        crate::expr::NameV { text: it, pos: tokens@[pos + 4].pos as int },
                    )) by {
                    assert(lone_ident_at(tokens@, pos + 4, it));
                }
            }
            if !is_punct(tokens, after_expr, '}') {
                proof {
                    reveal_strlit("for");
                    reveal_strlit("if");
                    assert forall|pt: Seq<char>, it: Seq<char>|
                        !for_empty_shape(tokens@, pos as int, pt, it) by {
                        if for_empty_shape(tokens@, pos as int, pt, it) {
                            assert(("for"@).len() == 3);
                            assert(("if"@).len() == 2);
                            assert(lone_ident_at(tokens@, pos + 4, it));
                        }
                    }
                    assert forall|pt: Seq<char>, it: Seq<char>, cvs: Seq<ElV>|
                        !for_shape(tokens@, pos as int, pt, it, cvs) by {
                        if for_shape(tokens@, pos as int, pt, it, cvs) {
                            assert(("for"@).len() == 3);
                            assert(("if"@).len() == 2);
                            assert(lone_ident_at(tokens@, pos + 4, it));
                        }
                    }
                    assert forall|x: Seq<char>| !if_empty_shape(tokens@, pos as int, x) by {
                        if if_empty_shape(tokens@, pos as int, x) {
                            assert(("for"@).len() == 3);
                            assert(("if"@).len() == 2);
                        }
                    }
                }
                return Err(
                    Diag::new(
                        pos_at(tokens, after_expr),
                        String::from_str("The control block is not closed."),
                    ),
                );
            }
            let mut at = after_expr + 1;
            let mut children: Vec<Element> = Vec::new();
            proof {
                assert forall|pt: Seq<char>, it: Seq<char>, cvs: Seq<ElV>|
                    #[trigger] for_shape(tokens@, pos as int, pt, it, cvs) implies (
                children@.len() <= cvs.len() && same_shape_els(
                    view_els(children@),
                    cvs.take(children@.len() as int),
                ) && at == pos + 6 + ser_els(cvs.take(children@.len() as int)).len()) by {
                    assert(cvs.take(0) =~= Seq::<ElV>::empty());
                    assert(view_els(children@).len() == 0);
                    assert(ser_els(Seq::<ElV>::empty()).len() == 0);
                }
            }
            loop
                invariant_except_break
                    pos < at <= tokens@.len(),
                    tokens@.len() + 3 <= usize::MAX,
                    pos + 1 < tokens@.len() && tokens@[pos + 1]@ == crate::tokens::TokK::Ident(
                        "for"@,
                    ),
                    forall|pt: Seq<char>, it: Seq<char>|
                        for_empty_shape(tokens@, pos as int, pt, it) ==> (at == pos + 6
                            && children@.len() == 0 && view_expr(iter_expr)
                            == crate::expr::ExprV::Ident(
                            crate::expr::NameV { text: it, pos: tokens@[pos + 4].pos as int },
                        ) && (pat matches ForPat::Ident(n) && n.text@ == pt)),
                    forall|pt: Seq<char>, it: Seq<char>, cvs: Seq<ElV>|
                        #[trigger] for_shape(tokens@, pos as int, pt, it, cvs) ==> {
                            &&& children@.len() <= cvs.len()
                            &&& same_shape_els(
                                view_els(children@),
                                cvs.take(children@.len() as int),
                            )
                            &&& at == pos + 6 + ser_els(cvs.take(children@.len() as int)).len()
                            &&& view_expr(iter_expr) == crate::expr::ExprV::Ident(
                                crate::expr::NameV { text: it, pos: tokens@[pos + 4].pos as int },
                            )
                            &&& pat matches ForPat::Ident(n) && n.text@ == pt
                        },
                ensures
                    pos < at <= tokens@.len(),
                    forall|pt: Seq<char>, it: Seq<char>|
                        for_empty_shape(tokens@, pos as int, pt, it) ==> (at == pos + 10
                            && children@.len() == 0 && view_expr(iter_expr)
                            == crate::expr::ExprV::Ident(
                            crate::expr::NameV { text: it, pos: tokens@[pos + 4].pos as int },
                        ) && (pat matches ForPat::Ident(n) && n.text@ == pt)),
                    forall|pt: Seq<char>, it: Seq<char>, cvs: Seq<ElV>|
                        #[trigger] for_shape(tokens@, pos as int, pt, it, cvs) ==> {
                            &&& children@.len() == cvs.len()
                            &&& same_shape_els(view_els(children@), cvs)
                            &&& at == pos + 10 + ser_els(cvs).len()
                            &&& view_expr(iter_expr) == crate::expr::ExprV::Ident(
                                crate::expr::NameV { text: it, pos: tokens@[pos + 4].pos as int },
                            )
                            &&& pat matches ForPat::Ident(n) && n.text@ == pt
                        },
                decreases tokens@.len() - at,
            {
                if at >= tokens.len() {
                    proof {
                        reveal_strlit("for");
                        reveal_strlit("if");
                        assert forall|pt: Seq<char>, it: Seq<char>|
                            !for_empty_shape(tokens@, pos as int, pt, it) by {
                            if for_empty_shape(tokens@, pos as int, pt, it) {
                                assert(("for"@).len() == 3);
                                assert(("if"@).len() == 2);
                            }
                        }
                        assert forall|pt: Seq<char>, it: Seq<char>, cvs: Seq<ElV>|
                            !for_shape(tokens@, pos as int, pt, it, cvs) by {
                            if for_shape(tokens@, pos as int, pt, it, cvs) {
                                assert(("for"@).len() == 3);
                                assert(("if"@).len() == 2);
                                let k = children@.len() as int;
                                lemma_ser_els_split(cvs, k);
                                assert(ser_els(cvs) == ser_els(cvs.take(k)) + ser_els(
                                    cvs.skip(k),
                                ));
                                assert(ser_els(cvs.take(k)).len() <= ser_els(cvs).len());
                            }
                        }
                        assert forall|x: Seq<char>| !if_empty_shape(tokens@, pos as int, x) by {
                            if if_empty_shape(tokens@, pos as int, x) {
                                assert(("for"@).len() == 3);
                                assert(("if"@).len() == 2);
                            }
                        }
                    }
                    return Err(
                        double_error(
                            for_pos,
                            "Closing element's name does not match an opening element's name.",
                            pos_at(tokens, at),
                            "No closing element's name match this elements name.",
                        ),
                    );
                }
                if is_punct(tokens, at, '{') && is_punct(tokens, at + 1, '/') {
                    if !is_keyword(tokens, at + 2, "for") {
                    proof {
                        reveal_strlit("for");
                        reveal_strlit("if");
                        assert forall|pt: Seq<char>, it: Seq<char>|
                            !for_empty_shape(tokens@, pos as int, pt, it) by {
                            if for_empty_shape(tokens@, pos as int, pt, it) {
                                assert(("for"@).len() == 3);
                                assert(("if"@).len() == 2);
                            }
                        }
                        assert forall|pt: Seq<char>, it: Seq<char>, cvs: Seq<ElV>|
                            !for_shape(tokens@, pos as int, pt, it, cvs) by {
                            if for_shape(tokens@, pos as int, pt, it, cvs) {
                                assert(("for"@).len() == 3);
                                assert(("if"@).len() == 2);
                                let k = children@.len() as int;
                                if k < cvs.len() {
                                    lemma_wf_rt_els_index(cvs, k);
                                    lemma_ser_els_split(cvs, k);
                                    lemma_ser_classic_facts(cvs[k]);
                                    assert(ser_els(cvs.skip(k))[0] == ser_el(cvs[k])[0]);
                                    assert(ser_els(cvs)[ser_els(cvs.take(k)).len() as int] == (
                                    ser_els(cvs.take(k)) + ser_els(cvs.skip(k)))[ser_els(
                                        cvs.take(k),
                                    ).len() as int]);
                                    assert(tokens@[at as int]@ == crate::tokens::TokK::Punct(
                                        '<',
                                    ));
                                } else {
                                    assert(cvs.take(k) =~= cvs);
                                }
                            }
                        }
                        assert forall|x: Seq<char>| !if_empty_shape(tokens@, pos as int, x) by {
                            if if_empty_shape(tokens@, pos as int, x) {
                                assert(("for"@).len() == 3);
                                assert(("if"@).len() == 2);
                            }
                        }
                    }
                        return Err(
                            double_error(
                                for_pos,
                                "Closing element's name does not match an opening element's name.",
                                pos_at(tokens, at + 2),
                                "No closing element's name match this elements name.",
                            ),
                        );
                    }
                    if !is_punct(tokens, at + 3, '}') {
                    proof {
                        reveal_strlit("for");
                        reveal_strlit("if");
                        assert forall|pt: Seq<char>, it: Seq<char>|
                            !for_empty_shape(tokens@, pos as int, pt, it) by {
                            if for_empty_shape(tokens@, pos as int, pt, it) {
                                assert(("for"@).len() == 3);
                                assert(("if"@).len() == 2);
                            }
                        }
                        assert forall|pt: Seq<char>, it: Seq<char>, cvs: Seq<ElV>|
                            !for_shape(tokens@, pos as int, pt, it, cvs) by {
                            if for_shape(tokens@, pos as int, pt, it, cvs) {
                                assert(("for"@).len() == 3);
                                assert(("if"@).len() == 2);
                                let k = children@.len() as int;
                                if k < cvs.len() {
                                    lemma_wf_rt_els_index(cvs, k);
                                    lemma_ser_els_split(cvs, k);
                                    lemma_ser_classic_facts(cvs[k]);
                                    assert(ser_els(cvs.skip(k))[0] == ser_el(cvs[k])[0]);
                                    assert(ser_els(cvs)[ser_els(cvs.take(k)).len() as int] == (
                                    ser_els(cvs.take(k)) + ser_els(cvs.skip(k)))[ser_els(
                                        cvs.take(k),
                                    ).len() as int]);
                                    assert(tokens@[at as int]@ == crate::tokens::TokK::Punct(
                                        '<',
                                    ));
                                } else {
                                    assert(cvs.take(k) =~= cvs);
                                }
                            }
                        }
                        assert forall|x: Seq<char>| !if_empty_shape(tokens@, pos as int, x) by {
                            if if_empty_shape(tokens@, pos as int, x) {
                                assert(("for"@).len() == 3);
                                assert(("if"@).len() == 2);
                            }
                        }
                    }
                        return Err(
                            Diag::new(
                                pos_at(tokens, at + 3),
                                String::from_str("The closing block must end with `}`."),
                            ),
                        );
                    }
                    proof {
                        assert forall|pt: Seq<char>, it: Seq<char>, cvs: Seq<ElV>|
                            #[trigger] for_shape(tokens@, pos as int, pt, it, cvs) implies (
                        children@.len() == cvs.len() && same_shape_els(view_els(children@), cvs)
                            && at == pos + 6 + ser_els(cvs).len()) by {
                            let k = children@.len() as int;
                            if k < cvs.len() {
                                lemma_wf_rt_els_index(cvs, k);
                                lemma_ser_els_split(cvs, k);
                                lemma_ser_classic_facts(cvs[k]);
                                assert(ser_els(cvs.skip(k))[0] == ser_el(cvs[k])[0]);
                                assert(ser_els(cvs)[ser_els(cvs.take(k)).len() as int] == (
                                ser_els(cvs.take(k)) + ser_els(cvs.skip(k)))[ser_els(
                                    cvs.take(k),
                                ).len() as int]);
                                assert(tokens@[at as int]@ == crate::tokens::TokK::Punct('<'));
                            } else {
                                assert(cvs.take(k) =~= cvs);
                            }
                        }
                    }
                    at = at + 4;
                    break;
                }
                let ghost pre_children = children@;
                let ghost pre_at = at as int;
                proof {
                    assert forall|pt: Seq<char>, it: Seq<char>, cvs: Seq<ElV>|
                        #[trigger] for_shape(tokens@, pos as int, pt, it, cvs) implies (
                    pre_children.len() < cvs.len() && rt_premise(
                        tokens@,
                        pre_at,
                        cvs[pre_children.len() as int],
                    )) by {
                        let k = pre_children.len() as int;
                        if k >= cvs.len() {
                            assert(cvs.take(k) =~= cvs);
                            assert(tokens@[at as int]@ == crate::tokens::TokK::Punct('{'));
                            assert(tokens@[at + 1]@ == crate::tokens::TokK::Punct('/'));
                        } else {
                            lemma_wf_rt_els_index(cvs, k);
                            lemma_ser_els_split(cvs, k);
                            let kid = cvs[k];
                            assert(cvs.skip(k)[0] == kid);
                            assert(ser_els(cvs.skip(k)) == ser_el(kid) + ser_els(
                                cvs.skip(k).skip(1),
                            ));
                            assert forall|m: int|
                                0 <= m < ser_el(kid).len() implies tokens@[pre_at + m]@
                                == ser_el(kid)[m] by {
                                let q = ser_els(cvs.take(k)).len() + m;
                                assert(ser_els(cvs)[q] == (ser_els(cvs.take(k)) + ser_els(
                                    cvs.skip(k),
                                ))[q]);
                                assert(ser_els(cvs.skip(k))[m] == ser_el(kid)[m]);
                                assert(tokens@[pos + 6 + q]@ == ser_els(cvs)[q]);
                            }
                        }
                    }
                }
                let (child, after) = match Element::parse(tokens, at, warnings) {
                    Ok(p) => p,
                    Err(d) => {
                        proof {
                            reveal_strlit("for");
                            reveal_strlit("if");
                            assert forall|pt: Seq<char>, it: Seq<char>|
                                !for_empty_shape(tokens@, pos as int, pt, it) by {
                                if for_empty_shape(tokens@, pos as int, pt, it) {
                                    assert(("for"@).len() == 3);
                                    assert(("if"@).len() == 2);
                                }
                            }
                            assert forall|pt: Seq<char>, it: Seq<char>, cvs: Seq<ElV>|
                                !for_shape(tokens@, pos as int, pt, it, cvs) by {
                                if for_shape(tokens@, pos as int, pt, it, cvs) {
                                    assert(rt_premise(
                                        tokens@,
                                        pre_at,
                                        cvs[pre_children.len() as int],
                                    ));
                                }
                            }
                            assert forall|x: Seq<char>|
                                !if_empty_shape(tokens@, pos as int, x) by {
                                if if_empty_shape(tokens@, pos as int, x) {
                                    assert(("for"@).len() == 3);
                                    assert(("if"@).len() == 2);
                                }
                            }
                        }
                        return Err(d);
                    },
                };
                children.push(child);
                at = after;
                proof {
                    lemma_view_els_push(pre_children, child);
                    assert forall|pt: Seq<char>, it: Seq<char>, cvs: Seq<ElV>|
                        #[trigger] for_shape(tokens@, pos as int, pt, it, cvs) implies (
                    children@.len() <= cvs.len() && same_shape_els(
                        view_els(children@),
                        cvs.take(children@.len() as int),
                    ) && at == pos + 6 + ser_els(cvs.take(children@.len() as int)).len()) by {
                        let k = pre_children.len() as int;
                        let kid = cvs[k];
                        assert(rt_premise(tokens@, pre_at, kid));
                        assert(same_shape_el(view_el(child), kid));
                        assert(after == pre_at + ser_el(kid).len());
                        lemma_wf_rt_els_index(cvs, k);
                        lemma_ser_els_split(cvs, k);
                        assert(cvs.take(k + 1) =~= cvs.take(k).push(kid));
                        lemma_ser_els_snoc(cvs.take(k), kid);
                        lemma_same_shape_els_snoc(
                            view_els(pre_children),
                            cvs.take(k),
                            view_el(child),
                            kid,
                        );
                    }
                }
            }
            return Ok((ExprElement::For { pat, expr: iter_expr, children }, at));
        }
        if is_keyword(tokens, pos + 1, "if") {
            proof {
                reveal_strlit("for");
                reveal_strlit("if");
            }
            let if_span = pos_at(tokens, pos + 1);
            let (first_expr, after_expr) = match parse_expr(tokens, pos + 2, false) {
                Ok(p) => p,
                Err(_) => {
                    proof {
                        reveal_strlit("for");
                        reveal_strlit("if");
                        assert forall|x: Seq<char>| !if_empty_shape(tokens@, pos as int, x) by {
                            if if_empty_shape(tokens@, pos as int, x) {
                                assert(("for"@).len() == 3);
                                assert(("if"@).len() == 2);
                                assert(lone_ident_at(tokens@, pos + 2, x));
                            }
                        }
                        assert forall|pt: Seq<char>, it: Seq<char>|
                            !for_empty_shape(tokens@, pos as int, pt, it) by {
                            if for_empty_shape(tokens@, pos as int, pt, it) {
                                assert(("for"@).len() == 3);
                                assert(("if"@).len() == 2);
                            }
                        }
                        assert forall|pt: Seq<char>, it: Seq<char>, cvs: Seq<ElV>|
                            !for_shape(tokens@, pos as int, pt, it, cvs) by {
                            if for_shape(tokens@, pos as int, pt, it, cvs) {
                                assert(("for"@).len() == 3);
                                assert(("if"@).len() == 2);
                            }
                        }
                    }
                    return Err(
                        Diag::new(
                            pos_at(tokens, pos + 2),
                            String::from_str(
                                "An expression is required for `if`, `else if` and `for`.",
                            ),
                        ),
                    );
                },
            };
            proof {
                assert forall|x: Seq<char>|
                    if_empty_shape(tokens@, pos as int, x) implies (after_expr == pos + 3
                        && view_expr(first_expr) == crate::expr::ExprV::Ident(
                        crate::expr::NameV { text: x, pos: tokens@[pos + 2].pos as int },
                    )) by {
                    assert(lone_ident_at(tokens@, pos + 2, x));
                }
            }
            if !is_punct(tokens, after_expr, '}') {
                proof {
                    reveal_strlit("for");
                    reveal_strlit("if");
                    assert forall|x: Seq<char>| !if_empty_shape(tokens@, pos as int, x) by {
                        if if_empty_shape(tokens@, pos as int, x) {
                            assert(("for"@).len() == 3);
                            assert(("if"@).len() == 2);
                        }
                    }
                    assert forall|pt: Seq<char>, it: Seq<char>|
                        !for_empty_shape(tokens@, pos as int, pt, it) by {
                        if for_empty_shape(tokens@, pos as int, pt, it) {
                            assert(("for"@).len() == 3);
                            assert(("if"@).len() == 2);
                        }
                    }
                    assert forall|pt: Seq<char>, it: Seq<char>, cvs: Seq<ElV>|
                        !for_shape(tokens@, pos as int, pt, it, cvs) by {
                        if for_shape(tokens@, pos as int, pt, it, cvs) {
                            assert(("for"@).len() == 3);
                            assert(("if"@).len() == 2);
                        }
                    }
                }
                return Err(
                    Diag::new(
                        pos_at(tokens, after_expr),
                        String::from_str("The control block is not closed."),
                    ),
                );
            }
            let mut at = after_expr + 1;
            let mut conditions: Vec<Condition> = Vec::new();
            let mut children: Vec<Element> = Vec::new();
            let mut expr = first_expr;
            let mut name_span = if_span;
            let mut else_reached = false;
            loop
                invariant_except_break
                    pos < at <= tokens@.len(),
                    tokens@.len() + 3 <= usize::MAX,
                    pos + 1 < tokens@.len() && tokens@[pos + 1]@ == crate::tokens::TokK::Ident(
                        "if"@,
                    ),
                    forall|x: Seq<char>|
                        if_empty_shape(tokens@, pos as int, x) ==> (at == pos + 4
                            && conditions@.len() == 0 && children@.len() == 0 && view_expr(expr)
                            == crate::expr::ExprV::Ident(
                            crate::expr::NameV { text: x, pos: tokens@[pos + 2].pos as int },
                        )),
                ensures
                    pos < at <= tokens@.len(),
                    forall|x: Seq<char>|
                        if_empty_shape(tokens@, pos as int, x) ==> (at == pos + 8
                            && conditions@.len() == 1 && view_expr(conditions@[0].expr)
                            == crate::expr::ExprV::Ident(
                            crate::expr::NameV { text: x, pos: tokens@[pos + 2].pos as int },
                        ) && conditions@[0].children@.len() == 0),
                decreases tokens@.len() - at,
            {
                if at >= tokens.len() {
                    proof {
                        reveal_strlit("for");
                        reveal_strlit("if");
                        assert forall|pt: Seq<char>, it: Seq<char>|
                            !for_empty_shape(tokens@, pos as int, pt, it) by {
                            if for_empty_shape(tokens@, pos as int, pt, it) {
                                assert(("for"@).len() == 3);
                                assert(("if"@).len() == 2);
                            }
                        }
                        assert forall|pt: Seq<char>, it: Seq<char>, cvs: Seq<ElV>|
                            !for_shape(tokens@, pos as int, pt, it, cvs) by {
                            if for_shape(tokens@, pos as int, pt, it, cvs) {
                                assert(("for"@).len() == 3);
                                assert(("if"@).len() == 2);
                            }
                        }
                        assert forall|x: Seq<char>| !if_empty_shape(tokens@, pos as int, x) by {
                            if if_empty_shape(tokens@, pos as int, x) {
                                assert(("for"@).len() == 3);
                                assert(("if"@).len() == 2);
                            }
                        }
                    }
                    return Err(
                        double_error(
                            if_span,
                            "If clause must be closed ({/if}).",
                            pos_at(tokens, at),
                            "Consider to insert a closing tag before this one ({/if}).",
                        ),
                    );
                }
                if is_punct(tokens, at, '{') {
                    if is_punct(tokens, at + 1, '/') {
                        if !is_keyword(tokens, at + 2, "if") {
                    proof {
                        reveal_strlit("for");
                        reveal_strlit("if");
                        assert forall|pt: Seq<char>, it: Seq<char>|
                            !for_empty_shape(tokens@, pos as int, pt, it) by {
                            if for_empty_shape(tokens@, pos as int, pt, it) {
                                assert(("for"@).len() == 3);
                                assert(("if"@).len() == 2);
                            }
                        }
                        assert forall|pt: Seq<char>, it: Seq<char>, cvs: Seq<ElV>|
                            !for_shape(tokens@, pos as int, pt, it, cvs) by {
                            if for_shape(tokens@, pos as int, pt, it, cvs) {
                                assert(("for"@).len() == 3);
                                assert(("if"@).len() == 2);
                            }
                        }
                        assert forall|x: Seq<char>| !if_empty_shape(tokens@, pos as int, x) by {
                            if if_empty_shape(tokens@, pos as int, x) {
                                assert(("for"@).len() == 3);
                                assert(("if"@).len() == 2);
                            }
                        }
                    }
                            return Err(
                                double_error(
                                    if_span,
                                    "Closing element's name does not match an opening element's name.",
                                    pos_at(tokens, at + 2),
                                    "No closing element's name match this elements name.",
                                ),
                            );
                        }
                        if !is_punct(tokens, at + 3, '}') {
                    proof {
                        reveal_strlit("for");
                        reveal_strlit("if");
                        assert forall|pt: Seq<char>, it: Seq<char>|
                            !for_empty_shape(tokens@, pos as int, pt, it) by {
                            if for_empty_shape(tokens@, pos as int, pt, it) {
                                assert(("for"@).len() == 3);
                                assert(("if"@).len() == 2);
                            }
                        }
                        assert forall|pt: Seq<char>, it: Seq<char>, cvs: Seq<ElV>|
                            !for_shape(tokens@, pos as int, pt, it, cvs) by {
                            if for_shape(tokens@, pos as int, pt, it, cvs) {
                                assert(("for"@).len() == 3);
                                assert(("if"@).len() == 2);
                            }
                        }
                        assert forall|x: Seq<char>| !if_empty_shape(tokens@, pos as int, x) by {
                            if if_empty_shape(tokens@, pos as int, x) {
                                assert(("for"@).len() == 3);
                                assert(("if"@).len() == 2);
                            }
                        }
                    }
                            return Err(
                                Diag::new(
                                    pos_at(tokens, at + 3),
                                    String::from_str("The closing block must end with `}`."),
                                ),
                            );
                        }
                        conditions.push(Condition { expr, children });
                        at = at + 4;
                        break;
                    } else if is_keyword(tokens, at + 1, "if") {
                        proof {
                            reveal_strlit("for");
                            reveal_strlit("if");
                            assert forall|pt: Seq<char>, it: Seq<char>|
                                !for_empty_shape(tokens@, pos as int, pt, it) by {
                                if for_empty_shape(tokens@, pos as int, pt, it) {
                                    assert(("for"@).len() == 3);
                                    assert(("if"@).len() == 2);
                                }
                            }
                            assert forall|pt: Seq<char>, it: Seq<char>, cvs: Seq<ElV>|
                                !for_shape(tokens@, pos as int, pt, it, cvs) by {
                                if for_shape(tokens@, pos as int, pt, it, cvs) {
                                    assert(("for"@).len() == 3);
                                    assert(("if"@).len() == 2);
                                }
                            }
                            assert forall|x: Seq<char>|
                                !if_empty_shape(tokens@, pos as int, x) by {
                                if if_empty_shape(tokens@, pos as int, x) {
                                    assert(("for"@).len() == 3);
                                    assert(("if"@).len() == 2);
                                }
                            }
                        }
                        return Err(
                            double_error(
                                if_span,
                                "Consider to close this if ({/if}) or an else if.",
                                pos_at(tokens, at + 1),
                                "If can't follow a not-closed if.",
                            ),
                        );
                    } else if is_keyword(tokens, at + 1, "else") && is_keyword(
                        tokens,
                        at + 2,
                        "if",
                    ) {
                        if else_reached {
                        proof {
                            reveal_strlit("for");
                            reveal_strlit("if");
                            assert forall|pt: Seq<char>, it: Seq<char>|
                                !for_empty_shape(tokens@, pos as int, pt, it) by {
                                if for_empty_shape(tokens@, pos as int, pt, it) {
                                    assert(("for"@).len() == 3);
                                    assert(("if"@).len() == 2);
                                }
                            }
                            assert forall|pt: Seq<char>, it: Seq<char>, cvs: Seq<ElV>|
                                !for_shape(tokens@, pos as int, pt, it, cvs) by {
                                if for_shape(tokens@, pos as int, pt, it, cvs) {
                                    assert(("for"@).len() == 3);
                                    assert(("if"@).len() == 2);
                                }
                            }
                            assert forall|x: Seq<char>|
                                !if_empty_shape(tokens@, pos as int, x) by {
                                if if_empty_shape(tokens@, pos as int, x) {
                                    assert(("for"@).len() == 3);
                                    assert(("if"@).len() == 2);
                                }
                            }
                        }
                            return Err(
                                double_error(
                                    name_span,
                                    "Else clause can't follow another.",
                                    pos_at(tokens, at + 1),
                                    "Consider to remove this else block.",
                                ),
                            );
                        }
                        conditions.push(
                            Condition { expr, children: take_elements(&mut children) },
                        );
                        name_span = pos_at(tokens, at + 1);
                        let (e, after) = match parse_expr(tokens, at + 3, false) {
                            Ok(p) => p,
                            Err(_) => {
                                proof {
                                    reveal_strlit("for");
                                    reveal_strlit("if");
                                    assert forall|pt: Seq<char>, it: Seq<char>|
                                        !for_empty_shape(tokens@, pos as int, pt, it) by {
                                        if for_empty_shape(tokens@, pos as int, pt, it) {
                                            assert(("for"@).len() == 3);
                                            assert(("if"@).len() == 2);
                                        }
                                    }
                                    assert forall|pt: Seq<char>, it: Seq<char>, cvs: Seq<ElV>|
                                        !for_shape(tokens@, pos as int, pt, it, cvs) by {
                                        if for_shape(tokens@, pos as int, pt, it, cvs) {
                                            assert(("for"@).len() == 3);
                                            assert(("if"@).len() == 2);
                                        }
                                    }
                                    assert forall|x: Seq<char>|
                                        !if_empty_shape(tokens@, pos as int, x) by {
                                        if if_empty_shape(tokens@, pos as int, x) {
                                            assert(("for"@).len() == 3);
                                            assert(("if"@).len() == 2);
                                        }
                                    }
                                }
                                return Err(
                                    Diag::new(
                                        pos_at(tokens, at + 3),
                                        String::from_str(
                                            "An expression is required for `if`, `else if` and `for`.",
                                        ),
                                    ),
                                );
                            },
                        };
                        if !is_punct(tokens, after, '}') {
                                proof {
                                    reveal_strlit("for");
                                    reveal_strlit("if");
                                    assert forall|pt: Seq<char>, it: Seq<char>|
                                        !for_empty_shape(tokens@, pos as int, pt, it) by {
                                        if for_empty_shape(tokens@, pos as int, pt, it) {
                                            assert(("for"@).len() == 3);
                                            assert(("if"@).len() == 2);
                                        }
                                    }
                                    assert forall|pt: Seq<char>, it: Seq<char>, cvs: Seq<ElV>|
                                        !for_shape(tokens@, pos as int, pt, it, cvs) by {
                                        if for_shape(tokens@, pos as int, pt, it, cvs) {
                                            assert(("for"@).len() == 3);
                                            assert(("if"@).len() == 2);
                                        }
                                    }
                                    assert forall|x: Seq<char>|
                                        !if_empty_shape(tokens@, pos as int, x) by {
                                        if if_empty_shape(tokens@, pos as int, x) {
                                            assert(("for"@).len() == 3);
                                            assert(("if"@).len() == 2);
                                        }
                                    }
                                }
                            return Err(
                                Diag::new(
                                    pos_at(tokens, after),
                                    String::from_str("The control block is not closed."),
                                ),
                            );
                        }
                        expr = e;
                        at = after + 1;
                        children = Vec::new();
                    } else if is_keyword(tokens, at + 1, "else") {
                        if else_reached {
                            proof {
                                reveal_strlit("for");
                                reveal_strlit("if");
                                assert forall|pt: Seq<char>, it: Seq<char>|
                                    !for_empty_shape(tokens@, pos as int, pt, it) by {
                                    if for_empty_shape(tokens@, pos as int, pt, it) {
                                        assert(("for"@).len() == 3);
                                        assert(("if"@).len() == 2);
                                    }
                                }
                                assert forall|pt: Seq<char>, it: Seq<char>, cvs: Seq<ElV>|
                                    !for_shape(tokens@, pos as int, pt, it, cvs) by {
                                    if for_shape(tokens@, pos as int, pt, it, cvs) {
                                        assert(("for"@).len() == 3);
                                        assert(("if"@).len() == 2);
                                    }
                                }
                                assert forall|x: Seq<char>|
                                    !if_empty_shape(tokens@, pos as int, x) by {
                                    if if_empty_shape(tokens@, pos as int, x) {
                                        assert(("for"@).len() == 3);
                                        assert(("if"@).len() == 2);
                                    }
                                }
                            }
                            return Err(
                                double_error(
                                    name_span,
                                    "Else clause can't follow another.",
                                    pos_at(tokens, at + 1),
                                    "Consider to remove this else block.",
                                ),
                            );
                        }
                        if !is_punct(tokens, at + 2, '}') {
                            proof {
                                reveal_strlit("for");
                                reveal_strlit("if");
                                assert forall|pt: Seq<char>, it: Seq<char>|
                                    !for_empty_shape(tokens@, pos as int, pt, it) by {
                                    if for_empty_shape(tokens@, pos as int, pt, it) {
                                        assert(("for"@).len() == 3);
                                        assert(("if"@).len() == 2);
                                    }
                                }
                                assert forall|pt: Seq<char>, it: Seq<char>, cvs: Seq<ElV>|
                                    !for_shape(tokens@, pos as int, pt, it, cvs) by {
                                    if for_shape(tokens@, pos as int, pt, it, cvs) {
                                        assert(("for"@).len() == 3);
                                        assert(("if"@).len() == 2);
                                    }
                                }
                                assert forall|x: Seq<char>|
                                    !if_empty_shape(tokens@, pos as int, x) by {
                                    if if_empty_shape(tokens@, pos as int, x) {
                                        assert(("for"@).len() == 3);
                                        assert(("if"@).len() == 2);
                                    }
                                }
                            }
                            return Err(
                                Diag::new(
                                    pos_at(tokens, at + 2),
                                    String::from_str("The control block is not closed."),
                                ),
                            );
                        }
                        name_span = pos_at(tokens, at + 1);
                        else_reached = true;
                        conditions.push(
                            Condition { expr, children: take_elements(&mut children) },
                        );
                        expr = Expr::LitBool(true);
                        at = at + 3;
                        children = Vec::new();
                    } else {
                                proof {
                                    reveal_strlit("for");
                                    reveal_strlit("if");
                                    assert forall|pt: Seq<char>, it: Seq<char>|
                                        !for_empty_shape(tokens@, pos as int, pt, it) by {
                                        if for_empty_shape(tokens@, pos as int, pt, it) {
                                            assert(("for"@).len() == 3);
                                            assert(("if"@).len() == 2);
                                        }
                                    }
                                    assert forall|pt: Seq<char>, it: Seq<char>, cvs: Seq<ElV>|
                                        !for_shape(tokens@, pos as int, pt, it, cvs) by {
                                        if for_shape(tokens@, pos as int, pt, it, cvs) {
                                            assert(("for"@).len() == 3);
                                            assert(("if"@).len() == 2);
                                        }
                                    }
                                    assert forall|x: Seq<char>|
                                        !if_empty_shape(tokens@, pos as int, x) by {
                                        if if_empty_shape(tokens@, pos as int, x) {
                                            assert(("for"@).len() == 3);
                                            assert(("if"@).len() == 2);
                                        }
                                    }
                                }
                        return Err(
                            double_error(
                                if_span,
                                "If clause must be closed ({/if}).",
                                pos_at(tokens, at),
                                "Consider to insert a closing tag before this one ({/if}).",
                            ),
                        );
                    }
                } else {
                    let (child, after) = match Element::parse(tokens, at, warnings) {
                        Ok(p) => p,
                        Err(d) => {
                            proof {
                                reveal_strlit("for");
                                reveal_strlit("if");
                                assert forall|pt: Seq<char>, it: Seq<char>|
                                    !for_empty_shape(tokens@, pos as int, pt, it) by {
                                    if for_empty_shape(tokens@, pos as int, pt, it) {
                                        assert(("for"@).len() == 3);
                                        assert(("if"@).len() == 2);
                                    }
                                }
                                assert forall|pt: Seq<char>, it: Seq<char>, cvs: Seq<ElV>|
                                    !for_shape(tokens@, pos as int, pt, it, cvs) by {
                                    if for_shape(tokens@, pos as int, pt, it, cvs) {
                                        assert(("for"@).len() == 3);
                                        assert(("if"@).len() == 2);
                                    }
                                }
                                assert forall|x: Seq<char>|
                                    !if_empty_shape(tokens@, pos as int, x) by {
                                    if if_empty_shape(tokens@, pos as int, x) {
                                        assert(("for"@).len() == 3);
                                        assert(("if"@).len() == 2);
                                    }
                                }
                            }
                            return Err(d);
                        },
                    };
                    children.push(child);
                    at = after;
                }
            }
            return Ok((ExprElement::If { conditions }, at));
        }
        match ident_in_brace(tokens, pos) {
            Some((n, after)) => {
                return Ok((ExprElement::Ident(n), after));
            },
            None => {},
        }
        match lit_in_brace(tokens, pos, warnings) {
            Some((lit, after)) => {
                return Ok((ExprElement::Lit(lit), after));
            },
            None => {},
        }
        warnings.push(
            Diag::new(
                pos_at(tokens, pos),
                String::from_str(
                    "Block Element are in early stages. Don't hesitate to make proposals.",
                ),
            ),
        );
        let (stmts, after) = parse_block(tokens, pos)?;
        Ok((ExprElement::Block(Expr::Block(stmts)), after))
    }
}

/// Moves the collected children out, leaving an empty list behind.
fn take_elements(v: &mut Vec<Element>) -> (r: Vec<Element>)
{
    let mut out: Vec<Element> = Vec::new();
    core::mem::swap(v, &mut out);
    out
}

impl Element {
    /// Parses one element: a comment, a tag, a text run, or a brace
    /// block; a stray closing tag is a terminal failure. On the
    /// serialization of a well-formed tag-fragment element, parsing
    /// succeeds and returns that element's shape: the round trip.
    pub fn parse(tokens: &Vec<Token>, pos: usize, warnings: &mut Vec<Diag>) -> (r: Result<
        (Element, usize),
        Diag,
    >)
        requires
            pos <= tokens@.len(),
            tokens@.len() + 3 <= usize::MAX,
        ensures
            r matches Ok(p) ==> pos < p.1 <= tokens@.len(),
            forall|ev: ElV|
                rt_premise(tokens@, pos as int, ev) ==> (r matches Ok(p) && same_shape_el(
                    view_el(p.0),
                    ev,
                ) && p.1 == pos + ser_el(ev).len()),
            (pos < tokens@.len() && tokens@[pos as int]@ is OpenClosing) ==> (r matches Err(d)
                && d.primary.pos == tokens@[pos as int].pos && d.primary.msg@
                == "Inner element can't be parsed."@),
            forall|nm: Seq<char>|
                self_close_premise(tokens@, pos as int, nm) ==> (r matches Ok(p)
                    && p.0 matches Element::Classic(c) && c.name.text@ == nm && c.attrs@.len()
                    == 0 && c.children@.len() == 0 && p.1 == pos + 3),
            forall|a: Seq<char>, b: Seq<char>|
                mismatch_premise(tokens@, pos as int, a, b) ==> (r matches Err(d) && {
                    &&& d.primary.pos == tokens@[pos + 4].pos
                    &&& d.primary.msg@
                        == "Closing element's name does not match an opening element's name."@
                    &&& d.secondary matches Some(sec) && sec.pos == tokens@[pos + 1].pos
                        && sec.msg@ == "No closing element's name match this elements name."@
                }),
            (pos < tokens@.len() && !text_stop(tokens@[pos as int])) ==> (r matches Ok(p)
                && p.0 matches Element::Text(t) && pos < p.1 && t@ == texts_concat(
                tokens@,
                pos as int,
                p.1 as int,
            )),
            (pos < tokens@.len() && tokens@[pos as int]@ == crate::tokens::TokK::Punct('{'))
                ==> (r matches Ok(p) ==> p.0 is ExprElement),
        decreases tokens@.len() - pos, 15nat,
    {
        if pos < tokens.len() && matches!(&tokens[pos].kind, TokenKind::OpenClosing) {
            proof {
                assert forall|ev: ElV| !rt_premise(tokens@, pos as int, ev) by {
                    if rt_premise(tokens@, pos as int, ev) {
                        lemma_ser_classic_facts(ev);
                        assert(tokens@[pos as int]@ == crate::tokens::TokK::Punct('<'));
                    }
                }
            }
            return Err(
                Diag::new(tokens[pos].pos, String::from_str("Inner element can't be parsed.")),
            );
        }
        if is_punct(tokens, pos, '<') {
            if is_punct(tokens, pos + 1, '!') {
                proof {
                    assert forall|ev: ElV| !rt_premise(tokens@, pos as int, ev) by {
                        if rt_premise(tokens@, pos as int, ev) {
                            lemma_ser_classic_facts(ev);
                            assert(tokens@[pos + 1]@ == crate::tokens::TokK::Ident(
                                ev->Classic_0.name.text,
                            ));
                        }
                    }
                }
                let (comment, after) = parse_string_until_string(tokens, pos, "-->")?;
                if after == pos {
                    return Err(
                        Diag::new(
                            pos_at(tokens, pos),
                            String::from_str("The comment is not closed."),
                        ),
                    );
                }
                return Ok((Element::Comment(comment), after));
            }
            let (classic, after) = match Classic::parse(tokens, pos, warnings) {
                Ok(p) => p,
                Err(d) => {
                    return Err(d);
                },
            };
            return Ok((Element::Classic(classic), after));
        }
        proof {
            assert forall|ev: ElV| !rt_premise(tokens@, pos as int, ev) by {
                if rt_premise(tokens@, pos as int, ev) {
                    lemma_ser_classic_facts(ev);
                    assert(tokens@[pos as int]@ == crate::tokens::TokK::Punct('<'));
                }
            }
        }
        let (text, after) = parse_text_element(tokens, pos);
        if after == pos {
            let (x, end) = ExprElement::parse(tokens, pos, warnings)?;
            Ok((Element::ExprElement(x), end))
        } else {
            Ok((Element::Text(text), after))
        }
    }
}

impl Root {
    /// Parses a whole template: elements until the input ends. On input
    /// that is exactly the serialization of a well-formed tag-fragment
    /// forest, parsing succeeds and returns that forest's shape: the
    /// round trip, `parse(serialize(tree))` giving the tree back.
    pub fn parse(tokens: &Vec<Token>, pos: usize, warnings: &mut Vec<Diag>) -> (r: Result<
        (Root, usize),
        Diag,
    >)
        requires
            pos <= tokens@.len(),
            tokens@.len() + 3 <= usize::MAX,
        ensures
            r matches Ok(p) ==> pos <= p.1 <= tokens@.len(),
            forall|evs: Seq<ElV>|
                (wf_rt_els(evs) && prefix_at(tokens@, pos as int, ser_els(evs)) && pos + ser_els(
                    evs,
                ).len() == tokens@.len()) ==> (r matches Ok(p) && same_shape_els(
                    view_els(p.0.0@),
                    evs,
                ) && p.1 == tokens@.len()),
        decreases tokens@.len() - pos, 16nat,
    {
        let mut elements: Vec<Element> = Vec::new();
        let mut at = pos;
        proof {
            assert forall|evs: Seq<ElV>|
                (wf_rt_els(evs) && prefix_at(tokens@, pos as int, ser_els(evs)) && pos + ser_els(
                    evs,
                ).len() == tokens@.len()) implies {
                &&& elements@.len() <= evs.len()
                &&& same_shape_els(view_els(elements@), evs.take(elements@.len() as int))
                &&& at == pos + ser_els(evs.take(elements@.len() as int)).len()
            } by {
                assert(evs.take(0) =~= Seq::<ElV>::empty());
                assert(view_els(elements@).len() == 0);
            }
        }
        while at < tokens.len()
            invariant
                pos <= at <= tokens@.len(),
                tokens@.len() + 3 <= usize::MAX,
                forall|evs: Seq<ElV>|
                    (wf_rt_els(evs) && prefix_at(tokens@, pos as int, ser_els(evs)) && pos
                        + ser_els(evs).len() == tokens@.len()) ==> {
                        &&& elements@.len() <= evs.len()
                        &&& same_shape_els(view_els(elements@), evs.take(elements@.len() as int))
                        &&& at == pos + ser_els(evs.take(elements@.len() as int)).len()
                    },
            decreases tokens@.len() - at,
        {
            let ghost pre_elements = elements@;
            let ghost pre_at = at as int;
            proof {
                assert forall|evs: Seq<ElV>|
                    (wf_rt_els(evs) && prefix_at(tokens@, pos as int, ser_els(evs)) && pos
                        + ser_els(evs).len() == tokens@.len()) implies (pre_elements.len()
                    < evs.len() && rt_premise(
                    tokens@,
                    pre_at,
                    evs[pre_elements.len() as int],
                )) by {
                    let k = pre_elements.len() as int;
                    if k >= evs.len() {
                        assert(k == evs.len());
                        assert(evs.take(k) =~= evs);
                    }
                    lemma_wf_rt_els_index(evs, k);
                    lemma_ser_els_split(evs, k);
                    let child = evs[k];
                    assert(evs.skip(k)[0] == child);
                    assert(ser_els(evs.skip(k)) == ser_el(child) + ser_els(evs.skip(k).skip(1)));
                    assert forall|m: int| 0 <= m < ser_el(child).len() implies tokens@[pre_at + m]@
                        == ser_el(child)[m] by {
                        let q = ser_els(evs.take(k)).len() + m;
                        assert(ser_els(evs)[q] == (ser_els(evs.take(k)) + ser_els(
                            evs.skip(k),
                        ))[q]);
                        assert(ser_els(evs.skip(k))[m] == ser_el(child)[m]);
                        assert(tokens@[pos + q]@ == ser_els(evs)[q]);
                    }
                }
            }
            let (el, after) = match Element::parse(tokens, at, warnings) {
                Ok(p) => p,
                Err(d) => {
                    proof {
                        assert forall|evs: Seq<ElV>|
                            !(wf_rt_els(evs) && prefix_at(tokens@, pos as int, ser_els(evs)) && pos
                                + ser_els(evs).len() == tokens@.len()) by {
                            if wf_rt_els(evs) && prefix_at(tokens@, pos as int, ser_els(evs))
                                && pos + ser_els(evs).len() == tokens@.len() {
                                assert(rt_premise(
                                    tokens@,
                                    pre_at,
                                    evs[pre_elements.len() as int],
                                ));
                            }
                        }
                    }
                    return Err(d);
                },
            };
            elements.push(el);
            at = after;
            proof {
                lemma_view_els_push(pre_elements, el);
                assert forall|evs: Seq<ElV>|
                    (wf_rt_els(evs) && prefix_at(tokens@, pos as int, ser_els(evs)) && pos
                        + ser_els(evs).len() == tokens@.len()) implies {
                    &&& elements@.len() <= evs.len()
                    &&& same_shape_els(view_els(elements@), evs.take(elements@.len() as int))
                    &&& at == pos + ser_els(evs.take(elements@.len() as int)).len()
                } by {
                    let k = pre_elements.len() as int;
                    assert(k < evs.len());
                    let kid = evs[k];
                    assert(rt_premise(tokens@, pre_at, kid));
                    assert(same_shape_el(view_el(el), kid));
                    assert(after == pre_at + ser_el(kid).len());
                    lemma_wf_rt_els_index(evs, k);
                    lemma_ser_els_split(evs, k);
                    assert(evs.take(k + 1) =~= evs.take(k).push(kid));
                    lemma_ser_els_snoc(evs.take(k), kid);
                    lemma_same_shape_els_snoc(
                        view_els(pre_elements),
                        evs.take(k),
                        view_el(el),
                        kid,
                    );
                }
            }
        }
        proof {
            assert forall|evs: Seq<ElV>|
                (wf_rt_els(evs) && prefix_at(tokens@, pos as int, ser_els(evs)) && pos + ser_els(
                    evs,
                ).len() == tokens@.len()) implies (same_shape_els(view_els(elements@), evs) && at
                == tokens@.len()) by {
                let k = elements@.len() as int;
                if k < evs.len() {
                    lemma_ser_els_split(evs, k);
                    lemma_wf_rt_els_index(evs, k);
                    lemma_ser_classic_facts(evs[k]);
                    assert(ser_el(evs[k]).len() > 0);
                    assert(ser_els(evs.skip(k))[0] == ser_el(evs[k])[0]);
                    assert(ser_els(evs.skip(k)).len() > 0);
                } else {
                    assert(evs.take(k) =~= evs);
                }
            }
        }
        Ok((Root(elements), at))
    }
}

/// The token views of `pat` stand in `toks` starting at `pos`.
pub open spec fn prefix_at(toks: Seq<Token>, pos: int, pat: Seq<crate::tokens::TokK>) -> bool {
    &&& pos >= 0
    &&& pos + pat.len() <= toks.len()
    &&& forall|k: int| 0 <= k < pat.len() ==> toks[pos + k]@ == pat[k]
}

/// A well-formed attribute of the tag fragment: plain identifier name,
/// empty or identifier namespace, and a literal-string or single
/// identifier value.
pub open spec fn wf_rt_attr(a: AttrV) -> bool {
    &&& crate::tokens::is_ident_text(a.name)
    &&& (a.namespace.len() == 0 || crate::tokens::is_ident_text(a.namespace))
    &&& match a.expr {
        AttrExprTypeV::String(_) => true,
        AttrExprTypeV::Ident(n) => crate::tokens::is_ident_text(n.text),
        AttrExprTypeV::Block(_) => false,
    }
}

pub open spec fn wf_rt_attrs(s: Seq<AttrV>) -> bool {
    forall|i: int| 0 <= i < s.len() ==> wf_rt_attr(#[trigger] s[i])
}

/// The tag fragment of the element shape: a tree of ordinary tags with
/// identifier names and well-formed attributes, the fragment whose
/// serialization the parser provably inverts.
pub open spec fn wf_rt_el(e: ElV) -> bool
    decreases e, 0nat,
{
    match e {
        ElV::Classic(c) => crate::tokens::is_ident_text(c.name.text) && wf_rt_attrs(c.attrs)
            && wf_rt_els(c.children),
        _ => false,
    }
}

pub open spec fn wf_rt_els(s: Seq<ElV>) -> bool
    decreases s, 1nat,
{
    s.len() == 0 || (wf_rt_el(s[0]) && wf_rt_els(s.skip(1)))
}

pub proof fn lemma_wf_rt_els_index(s: Seq<ElV>, i: int)
    requires
        wf_rt_els(s),
        0 <= i < s.len(),
    ensures
        wf_rt_el(s[i]),
    decreases i,
{
    if i > 0 {
        assert(s.skip(1)[i - 1] == s[i]);
        lemma_wf_rt_els_index(s.skip(1), i - 1);
    }
}

/// The token run one attribute serializes to: its (possibly namespaced)
/// name and its value, a quoted string or a braced identifier.
pub open spec fn ser_attr(a: AttrV) -> Seq<crate::tokens::TokK> {
    (if a.namespace.len() == 0 {
        seq![crate::tokens::TokK::Ident(a.name)]
    } else {
        seq![
            crate::tokens::TokK::Ident(a.namespace),
            crate::tokens::TokK::Punct(':'),
            crate::tokens::TokK::Ident(a.name),
        ]
    }) + match a.expr {
        AttrExprTypeV::String(v) => seq![
            crate::tokens::TokK::Punct('='),
            crate::tokens::TokK::LitStr(v),
        ],
        AttrExprTypeV::Ident(n) => seq![
            crate::tokens::TokK::Punct('='),
            crate::tokens::TokK::Punct('{'),
            crate::tokens::TokK::Ident(n.text),
            crate::tokens::TokK::Punct('}'),
        ],
        AttrExprTypeV::Block(_) => Seq::empty(),
    }
}

pub open spec fn ser_attrs(s: Seq<AttrV>) -> Seq<crate::tokens::TokK>
    decreases s,
{
    if s.len() == 0 {
        Seq::empty()
    } else {
        ser_attr(s[0]) + ser_attrs(s.skip(1))
    }
}

/// Attribute serialization splits around any position of the list.
pub proof fn lemma_ser_attrs_split(s: Seq<AttrV>, k: int)
    requires
        0 <= k <= s.len(),
    ensures
        ser_attrs(s) == ser_attrs(s.take(k)) + ser_attrs(s.skip(k)),
    decreases k,
{
    if k == 0 {
        assert(s.take(0) =~= Seq::<AttrV>::empty());
        assert(s.skip(0) =~= s);
        assert(ser_attrs(Seq::<AttrV>::empty()) + ser_attrs(s) =~= ser_attrs(s));
    } else {
        lemma_ser_attrs_split(s.skip(1), k - 1);
        assert(s.take(k)[0] == s[0]);
        assert(s.take(k).skip(1) =~= s.skip(1).take(k - 1));
        assert(s.skip(k) =~= s.skip(1).skip(k - 1));
        assert(ser_attrs(s.take(k)) == ser_attr(s[0]) + ser_attrs(s.skip(1).take(k - 1)));
        assert(ser_attrs(s) == ser_attr(s[0]) + ser_attrs(s.skip(1)));
        assert((ser_attr(s[0]) + ser_attrs(s.skip(1).take(k - 1))) + ser_attrs(
            s.skip(1).skip(k - 1),
        ) =~= ser_attr(s[0]) + (ser_attrs(s.skip(1).take(k - 1)) + ser_attrs(
            s.skip(1).skip(k - 1),
        )));
    }
}

/// Appending one attribute appends its serialization.
pub proof fn lemma_ser_attrs_snoc(s: Seq<AttrV>, a: AttrV)
    ensures
        ser_attrs(s.push(a)) == ser_attrs(s) + ser_attr(a),
    decreases s,
{
    if s.len() == 0 {
        assert(s.push(a)[0] == a);
        assert(s.push(a).skip(1) =~= Seq::<AttrV>::empty());
        assert(ser_attr(a) + ser_attrs(Seq::<AttrV>::empty()) =~= ser_attrs(
            Seq::<AttrV>::empty(),
        ) + ser_attr(a));
    } else {
        lemma_ser_attrs_snoc(s.skip(1), a);
        assert(s.push(a)[0] == s[0]);
        assert(s.push(a).skip(1) =~= s.skip(1).push(a));
        assert(ser_attr(s[0]) + (ser_attrs(s.skip(1)) + ser_attr(a)) =~= (ser_attr(s[0])
            + ser_attrs(s.skip(1))) + ser_attr(a));
    }
}

/// The first token of a well-formed attribute's serialization is an
/// identifier, and the run is at least two tokens.
pub proof fn lemma_ser_attr_facts(a: AttrV)
    requires
        wf_rt_attr(a),
    ensures
        ser_attr(a).len() >= 2,
        ser_attr(a)[0] matches crate::tokens::TokK::Ident(_),
{
}

/// The token run one tag serializes to: `<name attrs>` children
/// `</name>`.
pub open spec fn ser_el(e: ElV) -> Seq<crate::tokens::TokK>
    decreases e, 0nat,
{
    match e {
        ElV::Classic(c) => seq![
            crate::tokens::TokK::Punct('<'),
            crate::tokens::TokK::Ident(c.name.text),
        ] + ser_attrs(c.attrs) + seq![crate::tokens::TokK::Punct('>')] + ser_els(c.children)
            + seq![
            crate::tokens::TokK::OpenClosing,
            crate::tokens::TokK::Ident(c.name.text),
            crate::tokens::TokK::Punct('>'),
        ],
        _ => Seq::empty(),
    }
}

pub open spec fn ser_els(s: Seq<ElV>) -> Seq<crate::tokens::TokK>
    decreases s, 1nat,
{
    if s.len() == 0 {
        Seq::empty()
    } else {
        ser_el(s[0]) + ser_els(s.skip(1))
    }
}

/// Serialization splits around any position of the list.
pub proof fn lemma_ser_els_split(s: Seq<ElV>, k: int)
    requires
        0 <= k <= s.len(),
    ensures
        ser_els(s) == ser_els(s.take(k)) + ser_els(s.skip(k)),
    decreases k,
{
    if k == 0 {
        assert(s.take(0) =~= Seq::<ElV>::empty());
        assert(s.skip(0) =~= s);
        assert(ser_els(Seq::<ElV>::empty()) + ser_els(s) =~= ser_els(s));
    } else {
        lemma_ser_els_split(s.skip(1), k - 1);
        assert(s.take(k)[0] == s[0]);
        assert(s.take(k).skip(1) =~= s.skip(1).take(k - 1));
        assert(s.skip(k) =~= s.skip(1).skip(k - 1));
        assert(ser_els(s.take(k)) == ser_el(s[0]) + ser_els(s.skip(1).take(k - 1)));
        assert(ser_els(s) == ser_el(s[0]) + ser_els(s.skip(1)));
        assert((ser_el(s[0]) + ser_els(s.skip(1).take(k - 1))) + ser_els(s.skip(1).skip(k - 1))
            =~= ser_el(s[0]) + (ser_els(s.skip(1).take(k - 1)) + ser_els(s.skip(1).skip(k - 1))));
    }
}

/// Equality of one attribute's shape: namespace, name and value, with
/// source offsets left out of the comparison.
pub open spec fn same_shape_attr(a: AttrV, b: AttrV) -> bool {
    &&& a.name == b.name
    &&& a.namespace == b.namespace
    &&& match (a.expr, b.expr) {
        (AttrExprTypeV::String(va), AttrExprTypeV::String(vb)) => va == vb,
        (AttrExprTypeV::Ident(na), AttrExprTypeV::Ident(nb)) => na.text == nb.text,
        _ => false,
    }
}

pub open spec fn same_shape_attrs(a: Seq<AttrV>, b: Seq<AttrV>) -> bool {
    a.len() == b.len() && forall|i: int| 0 <= i < a.len() ==> same_shape_attr(
        #[trigger] a[i],
        b[i],
    )
}

/// Equality of the element shape: names, attributes and children match,
/// with source offsets left out of the comparison.
pub open spec fn same_shape_el(a: ElV, b: ElV) -> bool
    decreases a, 0nat,
{
    match (a, b) {
        (ElV::Classic(ca), ElV::Classic(cb)) => {
            &&& ca.name.text == cb.name.text
            &&& same_shape_attrs(ca.attrs, cb.attrs)
            &&& same_shape_els(ca.children, cb.children)
        },
        _ => false,
    }
}

pub open spec fn same_shape_els(a: Seq<ElV>, b: Seq<ElV>) -> bool
    decreases a, 1nat,
{
    a.len() == b.len() && (a.len() == 0 || (same_shape_el(a[0], b[0]) && same_shape_els(
        a.skip(1),
        b.skip(1),
    )))
}

/// Appending shape-equal elements keeps the lists shape-equal.
pub proof fn lemma_same_shape_els_snoc(a: Seq<ElV>, b: Seq<ElV>, x: ElV, y: ElV)
    requires
        same_shape_els(a, b),
        same_shape_el(x, y),
    ensures
        same_shape_els(a.push(x), b.push(y)),
    decreases a,
{
    if a.len() == 0 {
        assert(a.push(x)[0] == x);
        assert(b.push(y)[0] == y);
        assert(a.push(x).skip(1) =~= Seq::<ElV>::empty());
        assert(b.push(y).skip(1) =~= Seq::<ElV>::empty());
        assert(same_shape_els(a.push(x).skip(1), b.push(y).skip(1)));
    } else {
        lemma_same_shape_els_snoc(a.skip(1), b.skip(1), x, y);
        assert(a.push(x)[0] == a[0]);
        assert(b.push(y)[0] == b[0]);
        assert(a.push(x).skip(1) =~= a.skip(1).push(x));
        assert(b.push(y).skip(1) =~= b.skip(1).push(y));
    }
}


/// Appending one element appends its serialization.
pub proof fn lemma_ser_els_snoc(s: Seq<ElV>, e: ElV)
    ensures
        ser_els(s.push(e)) == ser_els(s) + ser_el(e),
    decreases s,
{
    if s.len() == 0 {
        assert(s.push(e)[0] == e);
        assert(s.push(e).skip(1) =~= Seq::<ElV>::empty());
        assert(ser_el(e) + ser_els(Seq::<ElV>::empty()) =~= ser_els(Seq::<ElV>::empty()) + ser_el(
            e,
        ));
    } else {
        lemma_ser_els_snoc(s.skip(1), e);
        assert(s.push(e)[0] == s[0]);
        assert(s.push(e).skip(1) =~= s.skip(1).push(e));
        assert(ser_el(s[0]) + (ser_els(s.skip(1)) + ser_el(e)) =~= (ser_el(s[0]) + ser_els(
            s.skip(1),
        )) + ser_el(e));
    }
}

/// The index layout of one well-formed tag's serialization: the opener
/// pair, the attribute run, the `>`, the children run, and the closer
/// triple.
pub proof fn lemma_ser_classic_facts(ev: ElV)
    requires
        ev is Classic,
    ensures
        ser_el(ev).len() == 6 + ser_attrs(ev->Classic_0.attrs).len() + ser_els(
            ev->Classic_0.children,
        ).len(),
        ser_el(ev)[0] == crate::tokens::TokK::Punct('<'),
        ser_el(ev)[1] == crate::tokens::TokK::Ident(ev->Classic_0.name.text),
        forall|k: int|
            0 <= k < ser_attrs(ev->Classic_0.attrs).len() ==> ser_el(ev)[2 + k] == ser_attrs(
                ev->Classic_0.attrs,
            )[k],
        ser_el(ev)[2 + ser_attrs(ev->Classic_0.attrs).len() as int] == crate::tokens::TokK::Punct('>'),
        forall|k: int|
            0 <= k < ser_els(ev->Classic_0.children).len() ==> ser_el(ev)[3 + ser_attrs(
                ev->Classic_0.attrs,
            ).len() as int + k] == ser_els(ev->Classic_0.children)[k],
        ser_el(ev)[ser_el(ev).len() - 3] == crate::tokens::TokK::OpenClosing,
        ser_el(ev)[ser_el(ev).len() - 2] == crate::tokens::TokK::Ident(
            ev->Classic_0.name.text,
        ),
        ser_el(ev)[ser_el(ev).len() - 1] == crate::tokens::TokK::Punct('>'),
{
    let c = ev->Classic_0;
    let opener = seq![
        crate::tokens::TokK::Punct('<'),
        crate::tokens::TokK::Ident(c.name.text),
    ];
    let gt = seq![crate::tokens::TokK::Punct('>')];
    let closer = seq![
        crate::tokens::TokK::OpenClosing,
        crate::tokens::TokK::Ident(c.name.text),
        crate::tokens::TokK::Punct('>'),
    ];
    let attrs_run = ser_attrs(c.attrs);
    let body = ser_els(c.children);
    let alen = attrs_run.len() as int;
    let blen = body.len() as int;
    assert(ser_el(ev) == opener + attrs_run + gt + body + closer);
    assert(ser_el(ev).len() == 6 + alen + blen);
    assert forall|k: int| 0 <= k < alen implies ser_el(ev)[2 + k] == attrs_run[k] by {
        assert((opener + attrs_run)[2 + k] == attrs_run[k]);
        assert((opener + attrs_run + gt)[2 + k] == (opener + attrs_run)[2 + k]);
        assert((opener + attrs_run + gt + body)[2 + k] == (opener + attrs_run + gt)[2 + k]);
        assert((opener + attrs_run + gt + body + closer)[2 + k] == (opener + attrs_run + gt
            + body)[2 + k]);
    }
    assert((opener + attrs_run + gt)[2 + alen] == gt[0]);
    assert((opener + attrs_run + gt + body)[2 + alen] == (opener + attrs_run + gt)[2 + alen]);
    assert((opener + attrs_run + gt + body + closer)[2 + alen] == (opener + attrs_run + gt
        + body)[2 + alen]);
    assert forall|k: int| 0 <= k < blen implies ser_el(ev)[3 + alen + k] == body[k] by {
        assert((opener + attrs_run + gt + body)[3 + alen + k] == body[k]);
        assert((opener + attrs_run + gt + body + closer)[3 + alen + k] == (opener + attrs_run
            + gt + body)[3 + alen + k]);
    }
    assert((opener + attrs_run + gt + body + closer)[6 + alen + blen - 3] == closer[0]);
    assert((opener + attrs_run + gt + body + closer)[6 + alen + blen - 2] == closer[1]);
    assert((opener + attrs_run + gt + body + closer)[6 + alen + blen - 1] == closer[2]);
}


/// Serializes one attribute back to tokens; an expression-block value
/// has no serialized form and contributes nothing.
pub fn serialize_attr(a: &Attribute) -> (r: Vec<Token>)
    ensures
        r@.len() == ser_attr(view_attr(*a)).len(),
        forall|k: int| 0 <= k < r@.len() ==> r@[k]@ == ser_attr(view_attr(*a))[k],
{
    let mut out: Vec<Token> = Vec::new();
    if a.namespace.unicode_len() > 0 {
        out.push(Token { kind: TokenKind::Ident(a.namespace.clone()), pos: 0 });
        out.push(Token { kind: TokenKind::Punct(':'), pos: 0 });
        out.push(Token { kind: TokenKind::Ident(a.name.clone()), pos: 0 });
    } else {
        out.push(Token { kind: TokenKind::Ident(a.name.clone()), pos: 0 });
    }
    match &a.expr {
        AttrExprType::String(v) => {
            out.push(Token { kind: TokenKind::Punct('='), pos: 0 });
            out.push(Token { kind: TokenKind::LitStr(v.clone()), pos: 0 });
        },
        AttrExprType::Ident(n) => {
            out.push(Token { kind: TokenKind::Punct('='), pos: 0 });
            out.push(Token { kind: TokenKind::Punct('{'), pos: 0 });
            out.push(Token { kind: TokenKind::Ident(n.text.clone()), pos: n.pos });
            out.push(Token { kind: TokenKind::Punct('}'), pos: 0 });
        },
        AttrExprType::Block(_) => {},
    }
    proof {
        assert forall|k: int|
            0 <= k < ser_attr(view_attr(*a)).len() implies out@[k]@ == #[trigger] ser_attr(
            view_attr(*a),
        )[k] by {}
    }
    out
}

/// Serializes one element of the tag fragment back to tokens; element
/// kinds outside the fragment contribute nothing.
pub fn serialize_el(e: &Element) -> (r: Vec<Token>)
    ensures
        r@.len() == ser_el(view_el(*e)).len(),
        forall|k: int| 0 <= k < r@.len() ==> r@[k]@ == ser_el(view_el(*e))[k],
    decreases *e,
{
    match e {
        Element::Classic(c) => {
            let ghost ev = view_el(*e);
            proof {
                lemma_ser_classic_facts(ev);
                assert(ev->Classic_0 == ClassicV {
                    name: c.name@,
                    attrs: view_attrs(c.attrs@),
                    children: view_els(c.children@),
                });
            }
            let mut out: Vec<Token> = Vec::new();
            out.push(Token { kind: TokenKind::Punct('<'), pos: 0 });
            out.push(Token { kind: TokenKind::Ident(c.name.text.clone()), pos: c.name.pos });
            let mut ai: usize = 0;
            while ai < c.attrs.len()
                invariant
                    ai <= c.attrs@.len(),
                    out@.len() == 2 + ser_attrs(view_attrs(c.attrs@.take(ai as int))).len(),
                    out@.len() >= 2,
                    forall|k: int|
                        0 <= k < ser_attrs(view_attrs(c.attrs@.take(ai as int))).len() ==> out@[2
                            + k]@ == #[trigger] ser_attrs(
                            view_attrs(c.attrs@.take(ai as int)),
                        )[k],
                    out@[0]@ == crate::tokens::TokK::Punct('<'),
                    out@[1]@ == crate::tokens::TokK::Ident(c.name.text@),
                decreases c.attrs@.len() - ai,
            {
                let ghost pre = out@;
                let ghost pre_run = ser_attrs(view_attrs(c.attrs@.take(ai as int)));
                let mut sub = serialize_attr(&c.attrs[ai]);
                let ghost subv = sub@;
                out.append(&mut sub);
                proof {
                    assert(c.attrs@.take(ai + 1) =~= c.attrs@.take(ai as int).push(
                        c.attrs@[ai as int],
                    ));
                    lemma_view_attrs_push(c.attrs@.take(ai as int), c.attrs@[ai as int]);
                    lemma_ser_attrs_snoc(
                        view_attrs(c.attrs@.take(ai as int)),
                        view_attr(c.attrs@[ai as int]),
                    );
                    assert(out@ =~= pre + subv);
                    assert forall|k: int|
                        0 <= k < ser_attrs(view_attrs(c.attrs@.take(ai + 1))).len() implies out@[2
                        + k]@ == #[trigger] ser_attrs(view_attrs(c.attrs@.take(ai + 1)))[k] by {
                        if k < pre_run.len() {
                            assert(out@[2 + k] == pre[2 + k]);
                            assert((pre_run + ser_attr(view_attr(c.attrs@[ai as int])))[k]
                                == pre_run[k]);
                        } else {
                            assert(out@[2 + k] == subv[k - pre_run.len()]);
                            assert((pre_run + ser_attr(view_attr(c.attrs@[ai as int])))[k]
                                == ser_attr(view_attr(c.attrs@[ai as int]))[k - pre_run.len()]);
                        }
                    }
                }
                ai = ai + 1;
            }
            proof {
                assert(c.attrs@.take(c.attrs@.len() as int) =~= c.attrs@);
            }
            out.push(Token { kind: TokenKind::Punct('>'), pos: 0 });
            let ghost alen = ser_attrs(view_attrs(c.attrs@)).len() as int;
            let ghost pre_body = out@;
            let mut body = serialize_els(&c.children);
            let ghost bodyv = body@;
            out.append(&mut body);
            proof {
                assert(out@ =~= pre_body + bodyv);
                assert forall|k: int|
                    3 + alen <= k < out@.len() implies out@[k]@ == #[trigger] ser_els(
                    view_els(c.children@),
                )[k - 3 - alen] by {
                    assert(out@[k] == bodyv[k - 3 - alen]);
                }
            }
            out.push(Token { kind: TokenKind::OpenClosing, pos: 0 });
            out.push(Token { kind: TokenKind::Ident(c.name.text.clone()), pos: c.name.pos });
            out.push(Token { kind: TokenKind::Punct('>'), pos: 0 });
            proof {
                assert forall|k: int| 0 <= k < out@.len() implies out@[k]@ == ser_el(ev)[k] by {
                    let blen = ser_els(view_els(c.children@)).len() as int;
                    assert(out@.len() == 6 + alen + blen);
                }
            }
            out
        },
        _ => Vec::new(),
    }
}


/// Serializes a run of elements in order.
pub fn serialize_els(els: &Vec<Element>) -> (r: Vec<Token>)
    ensures
        r@.len() == ser_els(view_els(els@)).len(),
        forall|k: int| 0 <= k < r@.len() ==> r@[k]@ == ser_els(view_els(els@))[k],
    decreases els,
{
    let mut out: Vec<Token> = Vec::new();
    let mut ci: usize = 0;
    proof {
        assert(els@.take(0) =~= Seq::<Element>::empty());
    }
    while ci < els.len()
        invariant
            ci <= els@.len(),
            out@.len() == ser_els(view_els(els@.take(ci as int))).len(),
            forall|k: int| 0 <= k < out@.len() ==> out@[k]@ == #[trigger] ser_els(
                view_els(els@.take(ci as int)),
            )[k],
        decreases els@.len() - ci,
    {
        let ghost pre = out@;
        let ghost pre_run = ser_els(view_els(els@.take(ci as int)));
        let mut sub = serialize_el(&els[ci]);
        let ghost subv = sub@;
        out.append(&mut sub);
        proof {
            assert(els@.take(ci + 1) =~= els@.take(ci as int).push(els@[ci as int]));
            lemma_view_els_push(els@.take(ci as int), els@[ci as int]);
            lemma_ser_els_snoc(view_els(els@.take(ci as int)), view_el(els@[ci as int]));
            assert(out@ =~= pre + subv);
            assert forall|k: int| 0 <= k < out@.len() implies out@[k]@ == #[trigger] ser_els(
                view_els(els@.take(ci + 1)),
            )[k] by {
                if k < pre_run.len() {
                    assert(out@[k] == pre[k]);
                    assert((pre_run + ser_el(view_el(els@[ci as int])))[k] == pre_run[k]);
                } else {
                    assert(out@[k] == subv[k - pre_run.len()]);
                    assert((pre_run + ser_el(view_el(els@[ci as int])))[k] == ser_el(
                        view_el(els@[ci as int]),
                    )[k - pre_run.len()]);
                }
            }
        }
        ci = ci + 1;
    }
    proof {
        assert(els@.take(els@.len() as int) =~= els@);
    }
    out
}

} // verus!
