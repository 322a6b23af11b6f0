//! Recursive-descent parser for the host-expression subset the pipeline
//! understands: identifiers, literals, ranges, boolean and comparison and
//! arithmetic operators, assignments and compound assignments, method and
//! function calls, field accesses, macro invocations, closures, and
//! blocks of `let` declarations. Parsing never consumes input on a failed
//! alternative: every production works on an explicit cursor and only the
//! successful one hands an advanced cursor back.

use vstd::prelude::*;
use crate::diag::Diag;
use crate::expr::AsnOp;
use crate::expr::BinOp;
use crate::expr::Expr;
use crate::expr::LocalDecl;
use crate::expr::LocalPat;
use crate::expr::Name;
use crate::expr::Stmt;
use crate::strutil::str_eq;
use crate::tokens::token_text;
use crate::tokens::Token;
use crate::tokens::TokenKind;
use vstd::string::StringExecFns;

verus! {

/// The token's punctuation character, if it is one.
pub fn punct_at(tokens: &Vec<Token>, pos: usize) -> (r: Option<char>)
    ensures
        r matches Some(c) ==> pos < tokens@.len() && tokens@[pos as int]@
            == crate::tokens::TokK::Punct(c),
        r is None ==> !(pos < tokens@.len() && tokens@[pos as int]@ matches crate::tokens::TokK::Punct(_)),
{
    if pos < tokens.len() {
        match &tokens[pos].kind {
            TokenKind::Punct(c) => Some(*c),
            _ => None,
        }
    } else {
        None
    }
}

/// Whether the token at the cursor is this punctuation character.
pub fn is_punct(tokens: &Vec<Token>, pos: usize, c: char) -> (r: bool)
    ensures
        r <==> (pos < tokens@.len() && tokens@[pos as int]@ == crate::tokens::TokK::Punct(c)),
{
    match punct_at(tokens, pos) {
        Some(d) => d == c,
        None => false,
    }
}

/// The identifier at the cursor, if any, with its offset.
pub fn ident_at(tokens: &Vec<Token>, pos: usize) -> (r: Option<Name>)
    ensures
        r matches Some(n) ==> pos < tokens@.len() && tokens@[pos as int]@
            == crate::tokens::TokK::Ident(n.text@) && n.pos == tokens@[pos as int].pos,
        r is None ==> !(pos < tokens@.len() && tokens@[pos as int]@ matches crate::tokens::TokK::Ident(_)),
{
    if pos < tokens.len() {
        match &tokens[pos].kind {
            TokenKind::Ident(s) => Some(Name { text: s.clone(), pos: tokens[pos].pos }),
            _ => None,
        }
    } else {
        None
    }
}

/// Whether the token at the cursor is exactly this keyword.
pub fn is_keyword(tokens: &Vec<Token>, pos: usize, kw: &str) -> (r: bool)
    ensures
        r <==> (pos < tokens@.len() && tokens@[pos as int]@ == crate::tokens::TokK::Ident(kw@)),
{
    if pos < tokens.len() {
        match &tokens[pos].kind {
            TokenKind::Ident(s) => str_eq(s.as_str(), kw),
            _ => false,
        }
    } else {
        false
    }
}

/// The offset of the token at the cursor, or of the end of input.
pub fn pos_at(tokens: &Vec<Token>, pos: usize) -> (r: usize)
{
    if pos < tokens.len() {
        tokens[pos].pos
    } else if tokens.len() > 0 {
        tokens[tokens.len() - 1].pos
    } else {
        0
    }
}

/// A lone identifier expression: one non-literal identifier token with
/// the enclosing control block's `}` (or the end of input) right after
/// it, so no operator, call or path can extend it.
pub open spec fn lone_ident_at(toks: Seq<Token>, pos: int, t: Seq<char>) -> bool {
    &&& 0 <= pos < toks.len()
    &&& toks[pos]@ == crate::tokens::TokK::Ident(t)
    &&& t != "true"@
    &&& t != "false"@
    &&& pos + 1 < toks.len() ==> toks[pos + 1]@ == crate::tokens::TokK::Punct('}')
}

/// The result a lone identifier is owed: that identifier, one token on.
pub open spec fn lone_ident_result(
    toks: Seq<Token>,
    pos: int,
    t: Seq<char>,
    r: Result<(Expr, usize), Diag>,
) -> bool {
    r matches Ok(p) && crate::expr::view_expr(p.0) == crate::expr::ExprV::Ident(
        crate::expr::NameV { text: t, pos: toks[pos].pos as int },
    ) && p.1 == pos + 1
}

/// An expression was required here.
fn expected_expr(tokens: &Vec<Token>, pos: usize) -> (r: Diag)
{
    Diag::new(pos_at(tokens, pos), String::from_str("An expression is expected here."))
}

/// Parses one expression, lowest precedence first: assignment.
pub fn parse_expr(tokens: &Vec<Token>, pos: usize, allow_brace: bool) -> (r: Result<
    (Expr, usize),
    Diag,
>)
    requires
        pos <= tokens@.len(),
        tokens@.len() + 3 <= usize::MAX,
    ensures
        r matches Ok(p) ==> pos < p.1 <= tokens@.len(),
        forall|t: Seq<char>|
            lone_ident_at(tokens@, pos as int, t) ==> lone_ident_result(
                tokens@,
                pos as int,
                t,
                r,
            ),
    decreases tokens@.len() - pos, 12nat,
{
    let (lhs, after) = parse_range(tokens, pos, allow_brace)?;
    if is_punct(tokens, after, '=') && !is_punct(tokens, after + 1, '=') {
        let (rhs, end) = parse_expr(tokens, after + 1, allow_brace)?;
        return Ok((Expr::Assign(Box::new(lhs), Box::new(rhs)), end));
    }
    let compound: Option<AsnOp> = if is_punct(tokens, after, '+') && is_punct(
        tokens,
        after + 1,
        '=',
    ) {
        Some(AsnOp::Add)
    } else if is_punct(tokens, after, '-') && is_punct(tokens, after + 1, '=') {
        Some(AsnOp::Sub)
    } else if is_punct(tokens, after, '*') && is_punct(tokens, after + 1, '=') {
        Some(AsnOp::Mul)
    } else if is_punct(tokens, after, '/') && is_punct(tokens, after + 1, '=') {
        Some(AsnOp::Div)
    } else if is_punct(tokens, after, '%') && is_punct(tokens, after + 1, '=') {
        Some(AsnOp::Rem)
    } else {
        None
    };
    match compound {
        Some(op) => {
            if after + 2 <= tokens.len() {
                let (rhs, end) = parse_expr(tokens, after + 2, allow_brace)?;
                Ok((Expr::AssignOp(op, Box::new(lhs), Box::new(rhs)), end))
            } else {
                Err(expected_expr(tokens, after))
            }
        },
        None => Ok((lhs, after)),
    }
}

/// Ranges: `a .. b`.
fn parse_range(tokens: &Vec<Token>, pos: usize, allow_brace: bool) -> (r: Result<
    (Expr, usize),
    Diag,
>)
    requires
        pos <= tokens@.len(),
        tokens@.len() + 3 <= usize::MAX,
    ensures
        r matches Ok(p) ==> pos < p.1 <= tokens@.len(),
        forall|t: Seq<char>|
            lone_ident_at(tokens@, pos as int, t) ==> lone_ident_result(
                tokens@,
                pos as int,
                t,
                r,
            ),
    decreases tokens@.len() - pos, 11nat,
{
    let (lhs, after) = parse_or(tokens, pos, allow_brace)?;
    if is_punct(tokens, after, '.') && is_punct(tokens, after + 1, '.') && after + 2
        <= tokens.len() {
        let (rhs, end) = parse_or(tokens, after + 2, allow_brace)?;
        return Ok((Expr::Binary(BinOp::Range, Box::new(lhs), Box::new(rhs)), end));
    }
    Ok((lhs, after))
}

/// Boolean or: `a || b`.
fn parse_or(tokens: &Vec<Token>, pos: usize, allow_brace: bool) -> (r: Result<(Expr, usize), Diag>)
    requires
        pos <= tokens@.len(),
        tokens@.len() + 3 <= usize::MAX,
    ensures
        r matches Ok(p) ==> pos < p.1 <= tokens@.len(),
        forall|t: Seq<char>|
            lone_ident_at(tokens@, pos as int, t) ==> lone_ident_result(
                tokens@,
                pos as int,
                t,
                r,
            ),
    decreases tokens@.len() - pos, 10nat,
{
    let (first, after) = parse_and(tokens, pos, allow_brace)?;
    let mut lhs = first;
    let mut at = after;
    while is_punct(tokens, at, '|') && is_punct(tokens, at + 1, '|') && at + 2 <= tokens.len()
        invariant
            pos < at <= tokens@.len(),
            tokens@.len() + 3 <= usize::MAX,
                forall|t: Seq<char>|
                    lone_ident_at(tokens@, pos as int, t) ==> (at == pos + 1 && crate::expr::view_expr(
                        lhs,
                    ) == crate::expr::ExprV::Ident(
                        crate::expr::NameV { text: t, pos: tokens@[pos as int].pos as int },
                    )),
        decreases tokens@.len() - at,
    {
        let (rhs, end) = parse_and(tokens, at + 2, allow_brace)?;
        lhs = Expr::Binary(BinOp::Or, Box::new(lhs), Box::new(rhs));
        at = end;
    }
    Ok((lhs, at))
}

/// Boolean and: `a && b`.
fn parse_and(tokens: &Vec<Token>, pos: usize, allow_brace: bool) -> (r: Result<(Expr, usize), Diag>)
    requires
        pos <= tokens@.len(),
        tokens@.len() + 3 <= usize::MAX,
    ensures
        r matches Ok(p) ==> pos < p.1 <= tokens@.len(),
        forall|t: Seq<char>|
            lone_ident_at(tokens@, pos as int, t) ==> lone_ident_result(
                tokens@,
                pos as int,
                t,
                r,
            ),
    decreases tokens@.len() - pos, 9nat,
{
    let (first, after) = parse_cmp(tokens, pos, allow_brace)?;
    let mut lhs = first;
    let mut at = after;
    while is_punct(tokens, at, '&') && is_punct(tokens, at + 1, '&') && at + 2 <= tokens.len()
        invariant
            pos < at <= tokens@.len(),
            tokens@.len() + 3 <= usize::MAX,
                forall|t: Seq<char>|
                    lone_ident_at(tokens@, pos as int, t) ==> (at == pos + 1 && crate::expr::view_expr(
                        lhs,
                    ) == crate::expr::ExprV::Ident(
                        crate::expr::NameV { text: t, pos: tokens@[pos as int].pos as int },
                    )),
        decreases tokens@.len() - at,
    {
        let (rhs, end) = parse_cmp(tokens, at + 2, allow_brace)?;
        lhs = Expr::Binary(BinOp::And, Box::new(lhs), Box::new(rhs));
        at = end;
    }
    Ok((lhs, at))
}

/// Comparisons: `==`, `!=`, `<=`, `>=`, `<`, `>`. One comparison only, as
/// the host language does not chain them.
fn parse_cmp(tokens: &Vec<Token>, pos: usize, allow_brace: bool) -> (r: Result<(Expr, usize), Diag>)
    requires
        pos <= tokens@.len(),
        tokens@.len() + 3 <= usize::MAX,
    ensures
        r matches Ok(p) ==> pos < p.1 <= tokens@.len(),
        forall|t: Seq<char>|
            lone_ident_at(tokens@, pos as int, t) ==> lone_ident_result(
                tokens@,
                pos as int,
                t,
                r,
            ),
    decreases tokens@.len() - pos, 8nat,
{
    let (lhs, after) = parse_add(tokens, pos, allow_brace)?;
    let two: Option<BinOp> = if is_punct(tokens, after, '=') && is_punct(tokens, after + 1, '=') {
        Some(BinOp::Eq)
    } else if is_punct(tokens, after, '!') && is_punct(tokens, after + 1, '=') {
        Some(BinOp::Ne)
    } else if is_punct(tokens, after, '<') && is_punct(tokens, after + 1, '=') {
        Some(BinOp::Le)
    } else if is_punct(tokens, after, '>') && is_punct(tokens, after + 1, '=') {
        Some(BinOp::Ge)
    } else {
        None
    };
    match two {
        Some(op) => {
            if after + 2 <= tokens.len() {
                let (rhs, end) = parse_add(tokens, after + 2, allow_brace)?;
                return Ok((Expr::Binary(op, Box::new(lhs), Box::new(rhs)), end));
            }
            return Err(expected_expr(tokens, after));
        },
        None => {},
    }
    let one: Option<BinOp> = if is_punct(tokens, after, '<') {
        Some(BinOp::Lt)
    } else if is_punct(tokens, after, '>') {
        Some(BinOp::Gt)
    } else {
        None
    };
    match one {
        Some(op) => {
            if after + 1 <= tokens.len() {
                let (rhs, end) = parse_add(tokens, after + 1, allow_brace)?;
                return Ok((Expr::Binary(op, Box::new(lhs), Box::new(rhs)), end));
            }
            return Err(expected_expr(tokens, after));
        },
        None => {},
    }
    Ok((lhs, after))
}

/// Addition level: `+`, `-`.
fn parse_add(tokens: &Vec<Token>, pos: usize, allow_brace: bool) -> (r: Result<(Expr, usize), Diag>)
    requires
        pos <= tokens@.len(),
        tokens@.len() + 3 <= usize::MAX,
    ensures
        r matches Ok(p) ==> pos < p.1 <= tokens@.len(),
        forall|t: Seq<char>|
            lone_ident_at(tokens@, pos as int, t) ==> lone_ident_result(
                tokens@,
                pos as int,
                t,
                r,
            ),
    decreases tokens@.len() - pos, 7nat,
{
    let (first, after) = parse_mul(tokens, pos, allow_brace)?;
    let mut lhs = first;
    let mut at = after;
    loop
        invariant_except_break
            pos < at <= tokens@.len(),
            tokens@.len() + 3 <= usize::MAX,
                forall|t: Seq<char>|
                    lone_ident_at(tokens@, pos as int, t) ==> (at == pos + 1 && crate::expr::view_expr(
                        lhs,
                    ) == crate::expr::ExprV::Ident(
                        crate::expr::NameV { text: t, pos: tokens@[pos as int].pos as int },
                    )),
        ensures
            pos < at <= tokens@.len(),
                forall|t: Seq<char>|
                    lone_ident_at(tokens@, pos as int, t) ==> (at == pos + 1 && crate::expr::view_expr(
                        lhs,
                    ) == crate::expr::ExprV::Ident(
                        crate::expr::NameV { text: t, pos: tokens@[pos as int].pos as int },
                    )),
        decreases tokens@.len() - at,
    {
        let op: Option<BinOp> = if is_punct(tokens, at, '+') && !is_punct(tokens, at + 1, '=') {
            Some(BinOp::Add)
        } else if is_punct(tokens, at, '-') && !is_punct(tokens, at + 1, '=') {
            Some(BinOp::Sub)
        } else {
            None
        };
        match op {
            Some(op) => {
                if at + 1 > tokens.len() {
                    break;
                }
                let (rhs, end) = match parse_mul(tokens, at + 1, allow_brace) {
                    Ok(p) => p,
                    Err(d) => {
                        return Err(d);
                    },
                };
                lhs = Expr::Binary(op, Box::new(lhs), Box::new(rhs));
                at = end;
            },
            None => {
                break;
            },
        }
    }
    Ok((lhs, at))
}

/// Multiplication level: `*`, `/`, `%`.
fn parse_mul(tokens: &Vec<Token>, pos: usize, allow_brace: bool) -> (r: Result<(Expr, usize), Diag>)
    requires
        pos <= tokens@.len(),
        tokens@.len() + 3 <= usize::MAX,
    ensures
        r matches Ok(p) ==> pos < p.1 <= tokens@.len(),
        forall|t: Seq<char>|
            lone_ident_at(tokens@, pos as int, t) ==> lone_ident_result(
                tokens@,
                pos as int,
                t,
                r,
            ),
    decreases tokens@.len() - pos, 6nat,
{
    let (first, after) = parse_postfix(tokens, pos, allow_brace)?;
    let mut lhs = first;
    let mut at = after;
    loop
        invariant_except_break
            pos < at <= tokens@.len(),
            tokens@.len() + 3 <= usize::MAX,
                forall|t: Seq<char>|
                    lone_ident_at(tokens@, pos as int, t) ==> (at == pos + 1 && crate::expr::view_expr(
                        lhs,
                    ) == crate::expr::ExprV::Ident(
                        crate::expr::NameV { text: t, pos: tokens@[pos as int].pos as int },
                    )),
        ensures
            pos < at <= tokens@.len(),
                forall|t: Seq<char>|
                    lone_ident_at(tokens@, pos as int, t) ==> (at == pos + 1 && crate::expr::view_expr(
                        lhs,
                    ) == crate::expr::ExprV::Ident(
                        crate::expr::NameV { text: t, pos: tokens@[pos as int].pos as int },
                    )),
        decreases tokens@.len() - at,
    {
        let op: Option<BinOp> = if is_punct(tokens, at, '*') && !is_punct(tokens, at + 1, '=') {
            Some(BinOp::Mul)
        } else if is_punct(tokens, at, '/') && !is_punct(tokens, at + 1, '=') {
            Some(BinOp::Div)
        } else if is_punct(tokens, at, '%') && !is_punct(tokens, at + 1, '=') {
            Some(BinOp::Rem)
        } else {
            None
        };
        match op {
            Some(op) => {
                if at + 1 > tokens.len() {
                    break;
                }
                let (rhs, end) = match parse_postfix(tokens, at + 1, allow_brace) {
                    Ok(p) => p,
                    Err(d) => {
                        return Err(d);
                    },
                };
                lhs = Expr::Binary(op, Box::new(lhs), Box::new(rhs));
                at = end;
            },
            None => {
                break;
            },
        }
    }
    Ok((lhs, at))
}

/// Postfix chain: field accesses `.name` and method calls `.name(args)`,
/// but not `..`, which belongs to ranges.
fn parse_postfix(tokens: &Vec<Token>, pos: usize, allow_brace: bool) -> (r: Result<
    (Expr, usize),
    Diag,
>)
    requires
        pos <= tokens@.len(),
        tokens@.len() + 3 <= usize::MAX,
    ensures
        r matches Ok(p) ==> pos < p.1 <= tokens@.len(),
        forall|t: Seq<char>|
            lone_ident_at(tokens@, pos as int, t) ==> lone_ident_result(
                tokens@,
                pos as int,
                t,
                r,
            ),
    decreases tokens@.len() - pos, 5nat,
{
    let (first, after) = parse_primary(tokens, pos, allow_brace)?;
    let mut lhs = first;
    let mut at = after;
    loop
        invariant_except_break
            pos < at <= tokens@.len(),
            tokens@.len() + 3 <= usize::MAX,
                forall|t: Seq<char>|
                    lone_ident_at(tokens@, pos as int, t) ==> (at == pos + 1 && crate::expr::view_expr(
                        lhs,
                    ) == crate::expr::ExprV::Ident(
                        crate::expr::NameV { text: t, pos: tokens@[pos as int].pos as int },
                    )),
        ensures
            pos < at <= tokens@.len(),
                forall|t: Seq<char>|
                    lone_ident_at(tokens@, pos as int, t) ==> (at == pos + 1 && crate::expr::view_expr(
                        lhs,
                    ) == crate::expr::ExprV::Ident(
                        crate::expr::NameV { text: t, pos: tokens@[pos as int].pos as int },
                    )),
        decreases tokens@.len() - at,
    {
        if is_punct(tokens, at, '.') && !is_punct(tokens, at + 1, '.') {
            let name = match ident_at(tokens, at + 1) {
                Some(n) => n,
                None => {
                    return Err(
                        Diag::new(
                            pos_at(tokens, at),
                            String::from_str("A field or method name must follow `.`."),
                        ),
                    );
                },
            };
            if is_punct(tokens, at + 2, '(') {
                let (args, end) = match parse_args(tokens, at + 2) {
                    Ok(p) => p,
                    Err(d) => {
                        return Err(d);
                    },
                };
                lhs = Expr::MethodCall(Box::new(lhs), name, args);
                at = end;
            } else {
                lhs = Expr::Field(Box::new(lhs), name);
                at = at + 2;
            }
        } else {
            break;
        }
    }
    Ok((lhs, at))
}

/// A parenthesized, comma-separated argument list, starting at `(`.
fn parse_args(tokens: &Vec<Token>, pos: usize) -> (r: Result<(Vec<Expr>, usize), Diag>)
    requires
        pos <= tokens@.len(),
        tokens@.len() + 3 <= usize::MAX,
        pos < tokens@.len(),
    ensures
        r matches Ok(p) ==> pos < p.1 <= tokens@.len(),
    decreases tokens@.len() - pos, 4nat,
{
    let mut args: Vec<Expr> = Vec::new();
    let mut at = pos + 1;
    if at > tokens.len() {
        return Err(expected_expr(tokens, pos));
    }
    if is_punct(tokens, at, ')') {
        return Ok((args, at + 1));
    }
    loop
        invariant_except_break
            pos < at <= tokens@.len(),
            tokens@.len() + 3 <= usize::MAX,
        ensures
            pos < at <= tokens@.len(),
        decreases tokens@.len() - at,
    {
        let (arg, after) = match parse_expr(tokens, at, true) {
            Ok(p) => p,
            Err(d) => {
                return Err(d);
            },
        };
        args.push(arg);
        at = after;
        if is_punct(tokens, at, ',') {
            at = at + 1;
            if at > tokens.len() {
                return Err(expected_expr(tokens, at - 1));
            }
        } else {
            break;
        }
    }
    if is_punct(tokens, at, ')') {
        Ok((args, at + 1))
    } else {
        Err(Diag::new(pos_at(tokens, at), String::from_str("The argument list is not closed.")))
    }
}

/// A primary expression: an identifier (possibly a call or macro), a
/// literal, a parenthesized expression, a closure, or — where allowed — a
/// braced block.
fn parse_primary(tokens: &Vec<Token>, pos: usize, allow_brace: bool) -> (r: Result<
    (Expr, usize),
    Diag,
>)
    requires
        pos <= tokens@.len(),
        tokens@.len() + 3 <= usize::MAX,
    ensures
        r matches Ok(p) ==> pos < p.1 <= tokens@.len(),
        forall|t: Seq<char>|
            lone_ident_at(tokens@, pos as int, t) ==> lone_ident_result(
                tokens@,
                pos as int,
                t,
                r,
            ),
    decreases tokens@.len() - pos, 3nat,
{
    if pos >= tokens.len() {
        return Err(expected_expr(tokens, pos));
    }
    match &tokens[pos].kind {
        TokenKind::Ident(s) => {
            let name = Name { text: s.clone(), pos: tokens[pos].pos };
            if str_eq(s.as_str(), "true") {
                return Ok((Expr::LitBool(true), pos + 1));
            }
            if str_eq(s.as_str(), "false") {
                return Ok((Expr::LitBool(false), pos + 1));
            }
            if is_punct(tokens, pos + 1, '!') && is_punct(tokens, pos + 2, '(') {
                let (args, end) = parse_args(tokens, pos + 2)?;
                return Ok((Expr::MacroCall(name, args), end));
            }
            // A `::`-separated path stays one name, spelled as written.
            let mut path = name;
            let mut at = pos + 1;
            while is_punct(tokens, at, ':') && is_punct(tokens, at + 1, ':')
                invariant
                    pos < at <= tokens@.len(),
                    tokens@.len() + 3 <= usize::MAX,
                    forall|t: Seq<char>|
                        lone_ident_at(tokens@, pos as int, t) ==> (at == pos + 1 && path.text@
                            == t && path.pos == tokens@[pos as int].pos),
                decreases tokens@.len() - at,
            {
                match ident_at(tokens, at + 2) {
                    Some(seg) => {
                        path.text.append("::");
                        path.text.append(seg.text.as_str());
                        at = at + 3;
                    },
                    None => {
                        break;
                    },
                }
            }
            if is_punct(tokens, at, '(') {
                let (args, end) = parse_args(tokens, at)?;
                return Ok((Expr::Call(path, args), end));
            }
            Ok((Expr::Ident(path), at))
        },
        TokenKind::LitInt(s) => Ok((Expr::LitInt(s.clone()), pos + 1)),
        TokenKind::LitStr(s) => Ok((Expr::LitStr(s.clone()), pos + 1)),
        TokenKind::Punct(c) => {
            if *c == '(' {
                let (inner, after) = parse_expr(tokens, pos + 1, true)?;
                if is_punct(tokens, after, ')') {
                    Ok((inner, after + 1))
                } else {
                    Err(
                        Diag::new(
                            pos_at(tokens, after),
                            String::from_str("The parenthesis is not closed."),
                        ),
                    )
                }
            } else if *c == '|' {
                let mut params: Vec<Name> = Vec::new();
                let mut at = pos + 1;
                while at < tokens.len() && !is_punct(tokens, at, '|')
                    invariant
                        pos < at <= tokens@.len(),
                        tokens@[pos as int]@ matches crate::tokens::TokK::Punct(_),
                    decreases tokens@.len() - at,
                {
                    match ident_at(tokens, at) {
                        Some(n) => {
                            params.push(n);
                            at = at + 1;
                            if is_punct(tokens, at, ',') {
                                at = at + 1;
                            }
                        },
                        None => {
                            return Err(
                                Diag::new(
                                    pos_at(tokens, at),
                                    String::from_str(
                                        "Only plain identifiers are supported as closure parameters.",
                                    ),
                                ),
                            );
                        },
                    }
                }
                if at >= tokens.len() {
                    return Err(expected_expr(tokens, at));
                }
                let (body, end) = parse_expr(tokens, at + 1, true)?;
                Ok((Expr::Closure(params, Box::new(body)), end))
            } else if *c == '{' && allow_brace {
                let (stmts, end) = parse_block(tokens, pos)?;
                Ok((Expr::Block(stmts), end))
            } else {
                Err(expected_expr(tokens, pos))
            }
        },
        _ => Err(expected_expr(tokens, pos)),
    }
}

/// A braced statement block, starting at `{`: `let` declarations and
/// expression statements, each ended by `;` or by the closing brace.
pub fn parse_block(tokens: &Vec<Token>, pos: usize) -> (r: Result<(Vec<Stmt>, usize), Diag>)
    requires
        pos <= tokens@.len(),
        tokens@.len() + 3 <= usize::MAX,
    ensures
        r matches Ok(p) ==> pos < p.1 <= tokens@.len(),
    decreases tokens@.len() - pos, 2nat,
{
    if !is_punct(tokens, pos, '{') {
        return Err(Diag::new(pos_at(tokens, pos), String::from_str("A block is expected here.")));
    }
    let mut stmts: Vec<Stmt> = Vec::new();
    let mut at = pos + 1;
    loop
        invariant_except_break
            pos < at <= tokens@.len(),
            tokens@.len() + 3 <= usize::MAX,
        ensures
            pos < at <= tokens@.len(),
        decreases tokens@.len() - at,
    {
        if at >= tokens.len() {
            return Err(
                Diag::new(pos_at(tokens, at), String::from_str("The block is not closed.")),
            );
        }
        if is_punct(tokens, at, '}') {
            at = at + 1;
            break;
        }
        if is_punct(tokens, at, ';') {
            at = at + 1;
        } else if is_keyword(tokens, at, "let") {
            let (decl, after) = match parse_local(tokens, at) {
                Ok(p) => p,
                Err(d) => {
                    return Err(d);
                },
            };
            stmts.push(Stmt::Local(decl));
            at = after;
        } else {
            let (e, after) = match parse_expr(tokens, at, true) {
                Ok(p) => p,
                Err(d) => {
                    return Err(d);
                },
            };
            stmts.push(Stmt::Expr(e));
            at = after;
        }
    }
    Ok((stmts, at))
}

/// One `let` declaration, starting at the `let` keyword: a plain or typed
/// identifier pattern (other pattern shapes are kept as unsupported, for
/// the extractor to reject), an optional initializer, and `;`.
fn parse_local(tokens: &Vec<Token>, pos: usize) -> (r: Result<(LocalDecl, usize), Diag>)
    requires
        pos < tokens@.len(),
        tokens@.len() + 3 <= usize::MAX,
    ensures
        r matches Ok(p) ==> pos < p.1 <= tokens@.len(),
    decreases tokens@.len() - pos, 1nat,
{
    let let_pos = tokens[pos].pos;
    let mut at = pos + 1;
    if at >= tokens.len() {
        return Err(Diag::new(let_pos, String::from_str("The declaration is not finished.")));
    }
    if is_keyword(tokens, at, "mut") {
        at = at + 1;
        if at >= tokens.len() {
            return Err(Diag::new(let_pos, String::from_str("The declaration is not finished.")));
        }
    }
    let pat: LocalPat = match ident_at(tokens, at) {
        Some(n) => {
            at = at + 1;
            if is_punct(tokens, at, ':') {
                let (ty, after) = parse_type_text(tokens, at + 1)?;
                at = after;
                LocalPat::Typed(n, ty)
            } else {
                LocalPat::Ident(n)
            }
        },
        None => {
            let other_pos = pos_at(tokens, at);
            while at < tokens.len() && !is_punct(tokens, at, '=') && !is_punct(tokens, at, ';')
                invariant
                    pos < at <= tokens@.len(),
                decreases tokens@.len() - at,
            {
                at = at + 1;
            }
            LocalPat::Other(other_pos)
        },
    };
    let init: Option<Expr> = if is_punct(tokens, at, '=') {
        let (e, after) = parse_expr(tokens, at + 1, true)?;
        at = after;
        Some(e)
    } else {
        None
    };
    if is_punct(tokens, at, ';') {
        at = at + 1;
    }
    Ok((LocalDecl { pat, init, let_pos }, at))
}

/// The declared type as verbatim text: the tokens up to the initializer
/// or the end of the declaration, with nested angle brackets kept.
fn parse_type_text(tokens: &Vec<Token>, pos: usize) -> (r: Result<(String, usize), Diag>)
    requires
        pos <= tokens@.len(),
        tokens@.len() + 3 <= usize::MAX,
    ensures
        r matches Ok(p) ==> pos <= p.1 <= tokens@.len(),
    decreases tokens@.len() - pos, 0nat,
{
    let mut out = String::new();
    let mut at = pos;
    let mut depth: usize = 0;
    while at < tokens.len()
        invariant
            pos <= at <= tokens@.len(),
            tokens@.len() + 3 <= usize::MAX,
        decreases tokens@.len() - at,
    {
        if depth == 0 && (is_punct(tokens, at, '=') || is_punct(tokens, at, ';')) {
            break;
        }
        if is_punct(tokens, at, '<') {
            if depth < usize::MAX {
                depth = depth + 1;
            }
        }
        if is_punct(tokens, at, '>') {
            if depth > 0 {
                depth = depth - 1;
            }
        }
        out.append(token_text(&tokens[at]).as_str());
        at = at + 1;
    }
    Ok((out, at))
}

} // verus!
