//! Token model of the template source.
//!
//! The template language is lexed into a flat sequence of tokens:
//! identifiers, string literals, integer literals and single punctuation
//! characters, with the two tag-closing digraphs `</` and `/>` fused into
//! dedicated kinds when their characters are adjacent (mirroring the joint
//! spacing rule of the host language's lexer). Braces stay single
//! punctuation tokens; the parser pairs them.

use vstd::prelude::*;
use crate::diag::Diag;
use crate::strutil::chars_to_string;
use crate::strutil::push_char;
use vstd::string::StringExecFns;

verus! {

/// The kind of one token.
#[derive(Clone, Debug, PartialEq, Eq)]
pub enum TokenKind {
    Ident(String),
    LitStr(String),
    LitInt(String),
    Punct(char),
    /// The digraph `</`.
    OpenClosing,
    /// The digraph `/>`.
    SelfClose,
}

/// One token with the character offset where it starts.
#[derive(Clone, Debug)]
pub struct Token {
    pub kind: TokenKind,
    pub pos: usize,
}

/// Mathematical image of a token kind: string payloads become character
/// sequences.
pub ghost enum TokK {
    Ident(Seq<char>),
    LitStr(Seq<char>),
    LitInt(Seq<char>),
    Punct(char),
    OpenClosing,
    SelfClose,
}

impl View for TokenKind {
    type V = TokK;

    open spec fn view(&self) -> TokK {
        match self {
            TokenKind::Ident(s) => TokK::Ident(s@),
            TokenKind::LitStr(s) => TokK::LitStr(s@),
            TokenKind::LitInt(s) => TokK::LitInt(s@),
            TokenKind::Punct(c) => TokK::Punct(*c),
            TokenKind::OpenClosing => TokK::OpenClosing,
            TokenKind::SelfClose => TokK::SelfClose,
        }
    }
}

impl View for Token {
    type V = TokK;

    open spec fn view(&self) -> TokK {
        self.kind@
    }
}

pub open spec fn spec_is_ws(c: char) -> bool {
    c == ' ' || c == '\n' || c == '\t' || c == '\r'
}

pub open spec fn spec_is_ident_start(c: char) -> bool {
    ('a' <= c && c <= 'z') || ('A' <= c && c <= 'Z') || c == '_'
}

pub open spec fn spec_is_digit(c: char) -> bool {
    '0' <= c && c <= '9'
}

pub open spec fn spec_is_ident_char(c: char) -> bool {
    spec_is_ident_start(c) || spec_is_digit(c)
}

pub fn is_ws(c: char) -> (r: bool)
    ensures
        r == spec_is_ws(c),
{
    c == ' ' || c == '\n' || c == '\t' || c == '\r'
}

pub fn is_ident_start(c: char) -> (r: bool)
    ensures
        r == spec_is_ident_start(c),
{
    ('a' <= c && c <= 'z') || ('A' <= c && c <= 'Z') || c == '_'
}

pub fn is_digit(c: char) -> (r: bool)
    ensures
        r == spec_is_digit(c),
{
    '0' <= c && c <= '9'
}

pub fn is_ident_char(c: char) -> (r: bool)
    ensures
        r == spec_is_ident_char(c),
{
    is_ident_start(c) || is_digit(c)
}

/// A non-empty character sequence shaped like one identifier.
pub open spec fn is_ident_text(s: Seq<char>) -> bool {
    &&& s.len() > 0
    &&& spec_is_ident_start(s[0])
    &&& forall|i: int| 0 < i < s.len() ==> spec_is_ident_char(#[trigger] s[i])
}

/// How many string-delimiter characters the text holds; literals cannot
/// contain the delimiter, so delimiters strictly alternate between
/// opening and closing a literal.
pub open spec fn count_quotes(s: Seq<char>) -> nat
    decreases s,
{
    if s.len() == 0 {
        0
    } else {
        (if s[0] == '"' {
            1nat
        } else {
            0nat
        }) + count_quotes(s.skip(1))
    }
}

/// Extending the prefix by one character counts it.
pub proof fn lemma_count_quotes_snoc(s: Seq<char>, i: int)
    requires
        0 <= i < s.len(),
    ensures
        count_quotes(s.take(i + 1)) == count_quotes(s.take(i)) + (if s[i] == '"' {
            1nat
        } else {
            0nat
        }),
    decreases i,
{
    if i == 0 {
        assert(s.take(1)[0] == s[0]);
        assert(s.take(1).skip(1) =~= Seq::<char>::empty());
        assert(s.take(0) =~= Seq::<char>::empty());
    } else {
        assert(s.take(i + 1)[0] == s[0]);
        assert(s.take(i)[0] == s[0]);
        assert(s.take(i + 1).skip(1) =~= s.skip(1).take(i));
        assert(s.take(i).skip(1) =~= s.skip(1).take(i - 1));
        assert(s.skip(1)[i - 1] == s[i]);
        lemma_count_quotes_snoc(s.skip(1), i - 1);
    }
}

/// Every token starts inside the source text.
pub open spec fn tokens_in_src(toks: Seq<Token>, src_len: nat) -> bool {
    forall|i: int| 0 <= i < toks.len() ==> (#[trigger] toks[i]).pos < src_len
}


proof fn lemma_tokens_in_src_push(toks: Seq<Token>, t: Token, n: nat)
    requires
        tokens_in_src(toks, n),
        t.pos < n,
    ensures
        tokens_in_src(toks.push(t), n),
{
    assert forall|i: int| 0 <= i < toks.push(t).len() implies (#[trigger] toks.push(t)[i]).pos
        < n by {
        if i < toks.len() {
            assert(toks.push(t)[i] == toks[i]);
        } else {
            assert(toks.push(t)[i] == t);
        }
    }
}

proof fn lemma_tokens_sound_push(toks: Seq<Token>, t: Token, src: Seq<char>, bound: int)
    requires
        forall|k: int| 0 <= k < toks.len() ==> token_sound(#[trigger] toks[k], src),
        forall|k: int| 0 <= k < toks.len() ==> (#[trigger] toks[k]).pos < bound,
        forall|k: int| 0 <= k < toks.len() - 1 ==> (#[trigger] toks[k]).pos < toks[k + 1].pos,
        token_sound(t, src),
        bound <= t.pos,
    ensures
        forall|k: int| 0 <= k < toks.push(t).len() ==> token_sound(#[trigger] toks.push(t)[k], src),
        forall|k: int|
            0 <= k < toks.push(t).len() - 1 ==> (#[trigger] toks.push(t)[k]).pos < toks.push(
                t,
            )[k + 1].pos,
        forall|k: int| 0 <= k < toks.push(t).len() ==> (#[trigger] toks.push(t)[k]).pos <= t.pos,
{
    assert forall|k: int| 0 <= k < toks.push(t).len() implies token_sound(
        #[trigger] toks.push(t)[k],
        src,
    ) && toks.push(t)[k].pos <= t.pos by {
        if k < toks.len() {
            assert(toks.push(t)[k] == toks[k]);
        } else {
            assert(toks.push(t)[k] == t);
        }
    }
    assert forall|k: int|
        0 <= k < toks.push(t).len() - 1 implies (#[trigger] toks.push(t)[k]).pos < toks.push(
        t,
    )[k + 1].pos by {
        if k + 1 < toks.len() {
            assert(toks.push(t)[k] == toks[k] && toks.push(t)[k + 1] == toks[k + 1]);
        } else {
            assert(toks.push(t)[k] == toks[k] && toks.push(t)[k + 1] == t);
        }
    }
}

/// One token faithfully reflects the source at its position: an
/// identifier or number is the maximal run of its character class
/// starting there, a string literal is the quoted run with its
/// delimiters in place, the fused closers sit on their two characters,
/// and a punctuation token prints the character at its position.
pub open spec fn token_sound(t: Token, src: Seq<char>) -> bool {
    let p = t.pos as int;
    match t@ {
        TokK::Ident(s) => {
            &&& s.len() > 0
            &&& p + s.len() <= src.len()
            &&& s == src.subrange(p, p + s.len())
            &&& spec_is_ident_start(src[p])
            &&& forall|m: int| 0 < m < s.len() ==> spec_is_ident_char(#[trigger] s[m])
            &&& p + s.len() == src.len() || !spec_is_ident_char(src[p + s.len()])
        },
        TokK::LitInt(s) => {
            &&& s.len() > 0
            &&& p + s.len() <= src.len()
            &&& s == src.subrange(p, p + s.len())
            &&& forall|m: int| 0 <= m < s.len() ==> spec_is_digit(#[trigger] s[m])
            &&& p + s.len() == src.len() || !spec_is_digit(src[p + s.len()])
        },
        TokK::LitStr(s) => {
            &&& p + s.len() + 2 <= src.len()
            &&& src[p] == '"'
            &&& s == src.subrange(p + 1, p + 1 + s.len())
            &&& src[p + 1 + s.len()] == '"'
            &&& forall|m: int| 0 <= m < s.len() ==> #[trigger] s[m] != '"'
        },
        TokK::Punct(c) => p < src.len() && src[p] == c,
        TokK::OpenClosing => p + 1 < src.len() && src[p] == '<' && src[p + 1] == '/',
        TokK::SelfClose => p + 1 < src.len() && src[p] == '/' && src[p + 1] == '>',
    }
}

/// Every token reflects the source and the tokens come in source order.
pub open spec fn tokens_sound(toks: Seq<Token>, src: Seq<char>) -> bool {
    &&& forall|i: int| 0 <= i < toks.len() ==> token_sound(#[trigger] toks[i], src)
    &&& forall|i: int| 0 <= i < toks.len() - 1 ==> (#[trigger] toks[i]).pos < toks[i + 1].pos
}

/// Lexes the template source. Whitespace separates tokens and is dropped;
/// `</` and `/>` fuse only when adjacent. The one fatal condition is a
/// string literal that never closes, which happens exactly when the
/// source holds an odd number of string delimiters.
pub fn tokenize(src: &Vec<char>) -> (r: Result<Vec<Token>, Diag>)
    ensures
        r matches Ok(toks) ==> tokens_in_src(toks@, src@.len()),
        r matches Ok(toks) ==> tokens_sound(toks@, src@),
        r is Err <==> count_quotes(src@) % 2 == 1,
{
    let n = src.len();
    let mut toks: Vec<Token> = Vec::new();
    let mut i: usize = 0;
    while i < n
        invariant
            n == src@.len(),
            i <= n,
            tokens_in_src(toks@, src@.len()),
            forall|k: int| 0 <= k < toks@.len() ==> token_sound(#[trigger] toks@[k], src@),
            forall|k: int| 0 <= k < toks@.len() ==> (#[trigger] toks@[k]).pos < i,
            forall|k: int|
                0 <= k < toks@.len() - 1 ==> (#[trigger] toks@[k]).pos < toks@[k + 1].pos,
            count_quotes(src@.take(i as int)) % 2 == 0,
        decreases n - i,
    {
        let c = src[i];
        let ghost toks_pre = toks@;
        let ghost i_entry = i;
        if is_ws(c) {
            proof {
                lemma_count_quotes_snoc(src@, i as int);
            }
            i = i + 1;
        } else if is_ident_start(c) {
            let start = i;
            let mut buf: Vec<char> = vec![c];
            proof {
                lemma_count_quotes_snoc(src@, i as int);
            }
            i = i + 1;
            proof {
                assert(buf@ =~= src@.subrange(start as int, start + 1));
            }
            while i < n && is_ident_char(src[i])
                invariant
                    n == src@.len(),
                    start < i <= n,
                    buf@ == src@.subrange(start as int, i as int),
                    spec_is_ident_start(src@[start as int]),
                    forall|m: int| 0 < m < buf@.len() ==> spec_is_ident_char(#[trigger] buf@[m]),
                    count_quotes(src@.take(i as int)) % 2 == 0,
                decreases n - i,
            {
                buf.push(src[i]);
                proof {
                    assert(buf@ =~= src@.subrange(start as int, i + 1));
                    lemma_count_quotes_snoc(src@, i as int);
                }
                i = i + 1;
            }
            let t = Token { kind: TokenKind::Ident(chars_to_string(&buf)), pos: start };
            proof {
                lemma_tokens_in_src_push(toks@, t, src@.len());
                assert(token_sound(t, src@));
                lemma_tokens_sound_push(toks@, t, src@, i_entry as int);
            }
            toks.push(t);
        } else if is_digit(c) {
            let start = i;
            let mut buf: Vec<char> = vec![c];
            proof {
                lemma_count_quotes_snoc(src@, i as int);
            }
            i = i + 1;
            proof {
                assert(buf@ =~= src@.subrange(start as int, start + 1));
            }
            while i < n && is_digit(src[i])
                invariant
                    n == src@.len(),
                    start < i <= n,
                    buf@ == src@.subrange(start as int, i as int),
                    forall|m: int| 0 <= m < buf@.len() ==> spec_is_digit(#[trigger] buf@[m]),
                    count_quotes(src@.take(i as int)) % 2 == 0,
                decreases n - i,
            {
                buf.push(src[i]);
                proof {
                    assert(buf@ =~= src@.subrange(start as int, i + 1));
                    lemma_count_quotes_snoc(src@, i as int);
                }
                i = i + 1;
            }
            let t = Token { kind: TokenKind::LitInt(chars_to_string(&buf)), pos: start };
            proof {
                lemma_tokens_in_src_push(toks@, t, src@.len());
                assert(token_sound(t, src@));
                lemma_tokens_sound_push(toks@, t, src@, i_entry as int);
            }
            toks.push(t);
        } else if c == '"' {
            let start = i;
            proof {
                lemma_count_quotes_snoc(src@, i as int);
            }
            i = i + 1;
            let mut buf: Vec<char> = Vec::new();
            let mut closed = false;
            proof {
                assert(buf@ =~= src@.subrange(start + 1, start + 1));
            }
            while i < n && !closed
                invariant
                    n == src@.len(),
                    start < n,
                    start < i <= n,
                    src@[start as int] == '"',
                    !closed ==> buf@ == src@.subrange(start + 1, i as int),
                    closed ==> i >= start + 2 && buf@ == src@.subrange(start + 1, i - 1)
                        && src@[i - 1] == '"',
                    forall|m: int| 0 <= m < buf@.len() ==> #[trigger] buf@[m] != '"',
                    !closed ==> count_quotes(src@.take(i as int)) % 2 == 1,
                    closed ==> count_quotes(src@.take(i as int)) % 2 == 0,
                decreases n - i,
            {
                let d = src[i];
                proof {
                    lemma_count_quotes_snoc(src@, i as int);
                }
                i = i + 1;
                if d == '"' {
                    closed = true;
                } else {
                    buf.push(d);
                    proof {
                        assert(buf@ =~= src@.subrange(start + 1, i as int));
                    }
                }
            }
            if !closed {
                proof {
                    assert(src@.take(n as int) =~= src@);
                }
                return Err(Diag::new(start, String::from_str("String literal is not closed.")));
            }
            let t = Token { kind: TokenKind::LitStr(chars_to_string(&buf)), pos: start };
            proof {
                lemma_tokens_in_src_push(toks@, t, src@.len());
                assert(token_sound(t, src@));
                lemma_tokens_sound_push(toks@, t, src@, i_entry as int);
            }
            toks.push(t);
        } else if c == '<' && i + 1 < n && src[i + 1] == '/' {
            let t = Token { kind: TokenKind::OpenClosing, pos: i };
            proof {
                lemma_tokens_in_src_push(toks@, t, src@.len());
                assert(token_sound(t, src@));
                lemma_tokens_sound_push(toks@, t, src@, i_entry as int);
                lemma_count_quotes_snoc(src@, i as int);
                lemma_count_quotes_snoc(src@, i + 1);
            }
            toks.push(t);
            i = i + 2;
        } else if c == '/' && i + 1 < n && src[i + 1] == '>' {
            let t = Token { kind: TokenKind::SelfClose, pos: i };
            proof {
                lemma_tokens_in_src_push(toks@, t, src@.len());
                assert(token_sound(t, src@));
                lemma_tokens_sound_push(toks@, t, src@, i_entry as int);
                lemma_count_quotes_snoc(src@, i as int);
                lemma_count_quotes_snoc(src@, i + 1);
            }
            toks.push(t);
            i = i + 2;
        } else {
            let t = Token { kind: TokenKind::Punct(c), pos: i };
            proof {
                lemma_tokens_in_src_push(toks@, t, src@.len());
                assert(token_sound(t, src@));
                lemma_tokens_sound_push(toks@, t, src@, i_entry as int);
                lemma_count_quotes_snoc(src@, i as int);
            }
            toks.push(t);
            i = i + 1;
        }
    }
    proof {
        assert(src@.take(n as int) =~= src@);
    }
    Ok(toks)
}

/// The source text a token prints as; literals keep their quotes, as the
/// host tokenizer prints them.
pub open spec fn token_text_spec(k: TokK) -> Seq<char> {
    match k {
        TokK::Ident(s) => s,
        TokK::LitStr(s) => seq!['"'] + s + seq!['"'],
        TokK::LitInt(s) => s,
        TokK::Punct(c) => seq![c],
        TokK::OpenClosing => seq!['<', '/'],
        TokK::SelfClose => seq!['/', '>'],
    }
}

/// Renders one token back to text.
pub fn token_text(t: &Token) -> (r: String)
    ensures
        r@ == token_text_spec(t@),
{
    match &t.kind {
        TokenKind::Ident(s) => s.clone(),
        TokenKind::LitStr(s) => {
            let mut out = String::new();
            push_char(&mut out, '"');
            out.append(s.as_str());
            push_char(&mut out, '"');
            proof {
                assert(out@ =~= token_text_spec(t@));
            }
            out
        },
        TokenKind::LitInt(s) => s.clone(),
        TokenKind::Punct(c) => {
            let mut out = String::new();
            push_char(&mut out, *c);
            proof {
                assert(out@ =~= token_text_spec(t@));
            }
            out
        },
        TokenKind::OpenClosing => {
            let out = String::from_str("</");
            proof {
                reveal_strlit("</");
                assert(out@ =~= token_text_spec(t@));
            }
            out
        },
        TokenKind::SelfClose => {
            let out = String::from_str("/>");
            proof {
                reveal_strlit("/>");
                assert(out@ =~= token_text_spec(t@));
            }
            out
        },
    }
}

} // verus!
