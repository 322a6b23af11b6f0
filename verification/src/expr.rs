//! Closed model of the host expressions embedded in templates.
//!
//! The pipeline only needs the expression shapes it inspects or rewrites:
//! identifier leaves, literals, binary operators, assignments, method and
//! function calls, field accesses, macro invocations, closures and blocks
//! of local declarations. The two accessor shapes `StateRead` and
//! `StateMut` are produced by the rewriter and never by the parser: they
//! stand for a read (`.borrow()`) or mutable (`.borrow_mut()`) access to a
//! field of the shared state.

use vstd::prelude::*;
use crate::strutil::push_char;
use vstd::string::StringExecFns;

verus! {

/// An identifier with the character offset where it appeared.
#[derive(Clone, Debug)]
pub struct Name {
    pub text: String,
    pub pos: usize,
}

/// Mathematical image of a [`Name`].
pub ghost struct NameV {
    pub text: Seq<char>,
    pub pos: int,
}

impl View for Name {
    type V = NameV;

    open spec fn view(&self) -> NameV {
        NameV { text: self.text@, pos: self.pos as int }
    }
}

/// Binary operators the expression model distinguishes.
#[derive(Clone, Copy, Debug, PartialEq, Eq, Structural)]
pub enum BinOp {
    Add,
    Sub,
    Mul,
    Div,
    Rem,
    Eq,
    Ne,
    Lt,
    Le,
    Gt,
    Ge,
    And,
    Or,
    Range,
}

/// Compound-assignment operators (`+=` and friends).
#[derive(Clone, Copy, Debug, PartialEq, Eq, Structural)]
pub enum AsnOp {
    Add,
    Sub,
    Mul,
    Div,
    Rem,
}

/// One host expression.
#[derive(Debug)]
pub enum Expr {
    Ident(Name),
    LitInt(String),
    LitStr(String),
    LitBool(bool),
    Binary(BinOp, Box<Expr>, Box<Expr>),
    Assign(Box<Expr>, Box<Expr>),
    AssignOp(AsnOp, Box<Expr>, Box<Expr>),
    MethodCall(Box<Expr>, Name, Vec<Expr>),
    Call(Name, Vec<Expr>),
    Field(Box<Expr>, Name),
    MacroCall(Name, Vec<Expr>),
    Closure(Vec<Name>, Box<Expr>),
    Block(Vec<Stmt>),
    /// Shared-state read accessor: `<accessor>.borrow().<name>`.
    StateRead(String, Name),
    /// Shared-state mutable accessor: `<accessor>.borrow_mut().<name>`.
    StateMut(String, Name),
}

/// The pattern of one local declaration in the host block.
#[derive(Clone, Debug)]
pub enum LocalPat {
    /// `let name = ...`
    Ident(Name),
    /// `let name: Ty = ...`; the declared type is kept as text.
    Typed(Name, String),
    /// Any other pattern shape, with the offset of its first token.
    Other(usize),
}

/// One `let` declaration.
#[derive(Debug)]
pub struct LocalDecl {
    pub pat: LocalPat,
    pub init: Option<Expr>,
    pub let_pos: usize,
}

/// One statement of a block.
#[derive(Debug)]
pub enum Stmt {
    Local(LocalDecl),
    Expr(Expr),
}

/// Mathematical image of an expression.
pub ghost enum ExprV {
    Ident(NameV),
    LitInt(Seq<char>),
    LitStr(Seq<char>),
    LitBool(bool),
    Binary(BinOp, Box<ExprV>, Box<ExprV>),
    Assign(Box<ExprV>, Box<ExprV>),
    AssignOp(AsnOp, Box<ExprV>, Box<ExprV>),
    MethodCall(Box<ExprV>, NameV, Seq<ExprV>),
    Call(NameV, Seq<ExprV>),
    Field(Box<ExprV>, NameV),
    MacroCall(NameV, Seq<ExprV>),
    Closure(Seq<NameV>, Box<ExprV>),
    Block(Seq<StmtV>),
    StateRead(Seq<char>, NameV),
    StateMut(Seq<char>, NameV),
}

pub ghost enum LocalPatV {
    Ident(NameV),
    Typed(NameV, Seq<char>),
    Other(int),
}

pub ghost struct LocalDeclV {
    pub pat: LocalPatV,
    pub init: Option<ExprV>,
    pub let_pos: int,
}

pub ghost enum StmtV {
    Local(LocalDeclV),
    Expr(ExprV),
}

pub open spec fn view_names(s: Seq<Name>) -> Seq<NameV>
    decreases s,
{
    if s.len() == 0 {
        Seq::empty()
    } else {
        seq![s[0]@] + view_names(s.skip(1))
    }
}

/// Indexing view of [`view_names`].
pub proof fn lemma_view_names_props(s: Seq<Name>)
    ensures
        view_names(s).len() == s.len(),
        forall|i: int| 0 <= i < s.len() ==> view_names(s)[i] == s[i]@,
    decreases s,
{
    if s.len() > 0 {
        lemma_view_names_props(s.skip(1));
        assert forall|i: int| 0 <= i < s.len() implies view_names(s)[i] == s[i]@ by {
            if i > 0 {
                assert(view_names(s)[i] == view_names(s.skip(1))[i - 1]);
                assert(s.skip(1)[i - 1] == s[i]);
            }
        }
    }
}

/// Appending one name appends one view.
pub proof fn lemma_view_names_push(s: Seq<Name>, n: Name)
    ensures
        view_names(s.push(n)) == view_names(s).push(n@),
    decreases s,
{
    if s.len() == 0 {
        assert(s.push(n).skip(1) =~= Seq::<Name>::empty());
        assert(s.push(n)[0] == n);
        assert(view_names(s.push(n)) == seq![n@] + view_names(Seq::<Name>::empty()));
        assert(view_names(s.push(n)) =~= view_names(s).push(n@));
    } else {
        lemma_view_names_push(s.skip(1), n);
        assert(s.push(n).skip(1) =~= s.skip(1).push(n));
        assert(s.push(n)[0] == s[0]);
        let h = seq![s[0]@];
        let t = view_names(s.skip(1));
        assert(view_names(s.push(n)) == h + t.push(n@));
        assert((h + t).push(n@) =~= h + t.push(n@));
    }
}

pub open spec fn view_expr(e: Expr) -> ExprV
    decreases e,
{
    match e {
        Expr::Ident(n) => ExprV::Ident(n@),
        Expr::LitInt(s) => ExprV::LitInt(s@),
        Expr::LitStr(s) => ExprV::LitStr(s@),
        Expr::LitBool(b) => ExprV::LitBool(b),
        Expr::Binary(op, l, r) => ExprV::Binary(
            op,
            Box::new(view_expr(*l)),
            Box::new(view_expr(*r)),
        ),
        Expr::Assign(l, r) => ExprV::Assign(Box::new(view_expr(*l)), Box::new(view_expr(*r))),
        Expr::AssignOp(op, l, r) => ExprV::AssignOp(
            op,
            Box::new(view_expr(*l)),
            Box::new(view_expr(*r)),
        ),
        Expr::MethodCall(recv, n, args) => ExprV::MethodCall(
            Box::new(view_expr(*recv)),
            n@,
            view_exprs(args@),
        ),
        Expr::Call(n, args) => ExprV::Call(n@, view_exprs(args@)),
        Expr::Field(recv, n) => ExprV::Field(Box::new(view_expr(*recv)), n@),
        Expr::MacroCall(n, args) => ExprV::MacroCall(n@, view_exprs(args@)),
        Expr::Closure(params, body) => ExprV::Closure(view_names(params@), Box::new(view_expr(*body))),
        Expr::Block(stmts) => ExprV::Block(view_stmts(stmts@)),
        Expr::StateRead(acc, n) => ExprV::StateRead(acc@, n@),
        Expr::StateMut(acc, n) => ExprV::StateMut(acc@, n@),
    }
}

pub open spec fn view_exprs(s: Seq<Expr>) -> Seq<ExprV>
    decreases s,
{
    if s.len() == 0 {
        Seq::empty()
    } else {
        seq![view_expr(s[0])] + view_exprs(s.skip(1))
    }
}

pub open spec fn view_local(d: LocalDecl) -> LocalDeclV
    decreases d,
{
    LocalDeclV {
        pat: match d.pat {
            LocalPat::Ident(n) => LocalPatV::Ident(n@),
            LocalPat::Typed(n, ty) => LocalPatV::Typed(n@, ty@),
            LocalPat::Other(p) => LocalPatV::Other(p as int),
        },
        init: match d.init {
            Some(e) => Some(view_expr(e)),
            None => None,
        },
        let_pos: d.let_pos as int,
    }
}

pub open spec fn view_stmt(s: Stmt) -> StmtV
    decreases s,
{
    match s {
        Stmt::Local(d) => StmtV::Local(view_local(d)),
        Stmt::Expr(e) => StmtV::Expr(view_expr(e)),
    }
}

pub open spec fn view_stmts(s: Seq<Stmt>) -> Seq<StmtV>
    decreases s,
{
    if s.len() == 0 {
        Seq::empty()
    } else {
        seq![view_stmt(s[0])] + view_stmts(s.skip(1))
    }
}

impl View for Expr {
    type V = ExprV;

    open spec fn view(&self) -> ExprV {
        view_expr(*self)
    }
}

impl View for LocalDecl {
    type V = LocalDeclV;

    open spec fn view(&self) -> LocalDeclV {
        view_local(*self)
    }
}

impl View for Stmt {
    type V = StmtV;

    open spec fn view(&self) -> StmtV {
        view_stmt(*self)
    }
}

/// Indexing view of [`view_exprs`]: it maps [`view_expr`] over the list.
pub proof fn lemma_view_exprs_props(s: Seq<Expr>)
    ensures
        view_exprs(s).len() == s.len(),
        forall|i: int| 0 <= i < s.len() ==> view_exprs(s)[i] == view_expr(s[i]),
    decreases s,
{
    if s.len() > 0 {
        lemma_view_exprs_props(s.skip(1));
        assert forall|i: int| 0 <= i < s.len() implies view_exprs(s)[i] == view_expr(s[i]) by {
            if i > 0 {
                assert(view_exprs(s)[i] == view_exprs(s.skip(1))[i - 1]);
                assert(s.skip(1)[i - 1] == s[i]);
            }
        }
    }
}

/// Appending one expression appends one view.
pub proof fn lemma_view_exprs_push(s: Seq<Expr>, e: Expr)
    ensures
        view_exprs(s.push(e)) == view_exprs(s).push(view_expr(e)),
    decreases s,
{
    if s.len() == 0 {
        assert(s.push(e).skip(1) =~= Seq::<Expr>::empty());
        assert(s.push(e)[0] == e);
        assert(view_exprs(s.push(e)) == seq![view_expr(e)] + view_exprs(Seq::<Expr>::empty()));
        assert(view_exprs(s.push(e)) =~= view_exprs(s).push(view_expr(e)));
    } else {
        lemma_view_exprs_push(s.skip(1), e);
        assert(s.push(e).skip(1) =~= s.skip(1).push(e));
        assert(s.push(e)[0] == s[0]);
        let h = seq![view_expr(s[0])];
        let t = view_exprs(s.skip(1));
        assert(view_exprs(s.push(e)) == h + t.push(view_expr(e)));
        assert((h + t).push(view_expr(e)) =~= h + t.push(view_expr(e)));
    }
}

/// Indexing view of [`view_stmts`].
pub proof fn lemma_view_stmts_props(s: Seq<Stmt>)
    ensures
        view_stmts(s).len() == s.len(),
        forall|i: int| 0 <= i < s.len() ==> view_stmts(s)[i] == view_stmt(s[i]),
    decreases s,
{
    if s.len() > 0 {
        lemma_view_stmts_props(s.skip(1));
        assert forall|i: int| 0 <= i < s.len() implies view_stmts(s)[i] == view_stmt(s[i]) by {
            if i > 0 {
                assert(view_stmts(s)[i] == view_stmts(s.skip(1))[i - 1]);
                assert(s.skip(1)[i - 1] == s[i]);
            }
        }
    }
}

/// Appending one statement appends one view.
pub proof fn lemma_view_stmts_push(s: Seq<Stmt>, st: Stmt)
    ensures
        view_stmts(s.push(st)) == view_stmts(s).push(view_stmt(st)),
    decreases s,
{
    if s.len() == 0 {
        assert(s.push(st).skip(1) =~= Seq::<Stmt>::empty());
        assert(s.push(st)[0] == st);
        assert(view_stmts(s.push(st)) == seq![view_stmt(st)] + view_stmts(Seq::<Stmt>::empty()));
        assert(view_stmts(s.push(st)) =~= view_stmts(s).push(view_stmt(st)));
    } else {
        lemma_view_stmts_push(s.skip(1), st);
        assert(s.push(st).skip(1) =~= s.skip(1).push(st));
        assert(s.push(st)[0] == s[0]);
        let h = seq![view_stmt(s[0])];
        let t = view_stmts(s.skip(1));
        assert(view_stmts(s.push(st)) == h + t.push(view_stmt(st)));
        assert((h + t).push(view_stmt(st)) =~= h + t.push(view_stmt(st)));
    }
}

/// A copy of a name, equal to the original.
pub fn clone_name(n: &Name) -> (r: Name)
    ensures
        r == *n,
{
    Name { text: n.text.clone(), pos: n.pos }
}

/// A copy of an expression with the same mathematical image.
pub fn clone_expr(e: &Expr) -> (r: Expr)
    ensures
        r@ == e@,
    decreases e,
{
    match e {
        Expr::Ident(n) => Expr::Ident(clone_name(n)),
        Expr::LitInt(s) => Expr::LitInt(s.clone()),
        Expr::LitStr(s) => Expr::LitStr(s.clone()),
        Expr::LitBool(b) => Expr::LitBool(*b),
        Expr::Binary(op, l, r) => Expr::Binary(*op, Box::new(clone_expr(l)), Box::new(clone_expr(r))),
        Expr::Assign(l, r) => Expr::Assign(Box::new(clone_expr(l)), Box::new(clone_expr(r))),
        Expr::AssignOp(op, l, r) => Expr::AssignOp(
            *op,
            Box::new(clone_expr(l)),
            Box::new(clone_expr(r)),
        ),
        Expr::MethodCall(recv, n, args) => Expr::MethodCall(
            Box::new(clone_expr(recv)),
            clone_name(n),
            clone_exprs(args),
        ),
        Expr::Call(n, args) => Expr::Call(clone_name(n), clone_exprs(args)),
        Expr::Field(recv, n) => Expr::Field(Box::new(clone_expr(recv)), clone_name(n)),
        Expr::MacroCall(n, args) => Expr::MacroCall(clone_name(n), clone_exprs(args)),
        Expr::Closure(params, body) => {
            let mut ps: Vec<Name> = Vec::new();
            let mut i: usize = 0;
            while i < params.len()
                invariant
                    i <= params@.len(),
                    ps@ == params@.take(i as int),
                decreases params.len() - i,
            {
                ps.push(clone_name(&params[i]));
                proof {
                    assert(ps@ =~= params@.take(i + 1));
                }
                i = i + 1;
            }
            proof {
                assert(ps@ =~= params@);
            }
            Expr::Closure(ps, Box::new(clone_expr(body)))
        },
        Expr::Block(stmts) => Expr::Block(clone_stmts(stmts)),
        Expr::StateRead(acc, n) => Expr::StateRead(acc.clone(), clone_name(n)),
        Expr::StateMut(acc, n) => Expr::StateMut(acc.clone(), clone_name(n)),
    }
}

/// A copy of an expression list, image for image.
pub fn clone_exprs(args: &Vec<Expr>) -> (r: Vec<Expr>)
    ensures
        view_exprs(r@) == view_exprs(args@),
    decreases args,
{
    let mut out: Vec<Expr> = Vec::new();
    let mut i: usize = 0;
    while i < args.len()
        invariant
            i <= args@.len(),
            view_exprs(out@) == view_exprs(args@.take(i as int)),
        decreases args.len() - i,
    {
        let c = clone_expr(&args[i]);
        proof {
            lemma_view_exprs_push(out@, c);
            lemma_view_exprs_push(args@.take(i as int), args@[i as int]);
            assert(args@.take(i + 1) =~= args@.take(i as int).push(args@[i as int]));
        }
        out.push(c);
        i = i + 1;
    }
    proof {
        assert(args@.take(args@.len() as int) =~= args@);
    }
    out
}

/// A copy of one statement with the same mathematical image.
pub fn clone_stmt(s: &Stmt) -> (r: Stmt)
    ensures
        view_stmt(r) == view_stmt(*s),
    decreases s,
{
    match s {
        Stmt::Local(d) => Stmt::Local(clone_local(d)),
        Stmt::Expr(e) => Stmt::Expr(clone_expr(e)),
    }
}

/// A copy of one local declaration with the same mathematical image.
pub fn clone_local(d: &LocalDecl) -> (r: LocalDecl)
    ensures
        view_local(r) == view_local(*d),
    decreases d,
{
    LocalDecl {
        pat: match &d.pat {
            LocalPat::Ident(n) => LocalPat::Ident(clone_name(n)),
            LocalPat::Typed(n, ty) => LocalPat::Typed(clone_name(n), ty.clone()),
            LocalPat::Other(p) => LocalPat::Other(*p),
        },
        init: match &d.init {
            Some(e) => Some(clone_expr(e)),
            None => None,
        },
        let_pos: d.let_pos,
    }
}

/// A copy of a statement list, image for image.
pub fn clone_stmts(stmts: &Vec<Stmt>) -> (r: Vec<Stmt>)
    ensures
        view_stmts(r@) == view_stmts(stmts@),
    decreases stmts,
{
    let mut out: Vec<Stmt> = Vec::new();
    let mut i: usize = 0;
    while i < stmts.len()
        invariant
            i <= stmts@.len(),
            view_stmts(out@) == view_stmts(stmts@.take(i as int)),
        decreases stmts.len() - i,
    {
        let c = clone_stmt(&stmts[i]);
        proof {
            lemma_view_stmts_push(out@, c);
            lemma_view_stmts_push(stmts@.take(i as int), stmts@[i as int]);
            assert(stmts@.take(i + 1) =~= stmts@.take(i as int).push(stmts@[i as int]));
        }
        out.push(c);
        i = i + 1;
    }
    proof {
        assert(stmts@.take(stmts@.len() as int) =~= stmts@);
    }
    out
}

impl BinOp {
    /// The operator's surface spelling.
    pub fn text(&self) -> String {
        match self {
            BinOp::Add => String::from_str("+"),
            BinOp::Sub => String::from_str("-"),
            BinOp::Mul => String::from_str("*"),
            BinOp::Div => String::from_str("/"),
            BinOp::Rem => String::from_str("%"),
            BinOp::Eq => String::from_str("=="),
            BinOp::Ne => String::from_str("!="),
            BinOp::Lt => String::from_str("<"),
            BinOp::Le => String::from_str("<="),
            BinOp::Gt => String::from_str(">"),
            BinOp::Ge => String::from_str(">="),
            BinOp::And => String::from_str("&&"),
            BinOp::Or => String::from_str("||"),
            BinOp::Range => String::from_str(".."),
        }
    }
}

impl AsnOp {
    /// The operator's surface spelling.
    pub fn text(&self) -> String {
        match self {
            AsnOp::Add => String::from_str("+="),
            AsnOp::Sub => String::from_str("-="),
            AsnOp::Mul => String::from_str("*="),
            AsnOp::Div => String::from_str("/="),
            AsnOp::Rem => String::from_str("%="),
        }
    }
}

/// Renders an expression back to host-language text. Nested operator
/// expressions are parenthesized, which keeps the rendering simple and
/// meaning-preserving.
pub fn expr_to_text(e: &Expr) -> String
    decreases *e,
{
    match e {
        Expr::Ident(n) => n.text.clone(),
        Expr::LitInt(s) => s.clone(),
        Expr::LitStr(s) => {
            let mut out = String::new();
            push_char(&mut out, '"');
            out.append(s.as_str());
            push_char(&mut out, '"');
            out
        },
        Expr::LitBool(b) => {
            if *b {
                String::from_str("true")
            } else {
                String::from_str("false")
            }
        },
        Expr::Binary(op, l, r) => {
            let mut out = String::from_str("(");
            out.append(expr_to_text(l).as_str());
            push_char(&mut out, ' ');
            out.append(op.text().as_str());
            push_char(&mut out, ' ');
            out.append(expr_to_text(r).as_str());
            push_char(&mut out, ')');
            out
        },
        Expr::Assign(l, r) => {
            let mut out = String::from_str("(");
            out.append(expr_to_text(l).as_str());
            out.append(" = ");
            out.append(expr_to_text(r).as_str());
            push_char(&mut out, ')');
            out
        },
        Expr::AssignOp(op, l, r) => {
            let mut out = String::from_str("(");
            out.append(expr_to_text(l).as_str());
            push_char(&mut out, ' ');
            out.append(op.text().as_str());
            push_char(&mut out, ' ');
            out.append(expr_to_text(r).as_str());
            push_char(&mut out, ')');
            out
        },
        Expr::MethodCall(recv, n, args) => {
            let mut out = expr_to_text(recv);
            push_char(&mut out, '.');
            out.append(n.text.as_str());
            out.append(exprs_to_args_text(args).as_str());
            out
        },
        Expr::Call(n, args) => {
            let mut out = n.text.clone();
            out.append(exprs_to_args_text(args).as_str());
            out
        },
        Expr::Field(recv, n) => {
            let mut out = expr_to_text(recv);
            push_char(&mut out, '.');
            out.append(n.text.as_str());
            out
        },
        Expr::MacroCall(n, args) => {
            let mut out = n.text.clone();
            push_char(&mut out, '!');
            out.append(exprs_to_args_text(args).as_str());
            out
        },
        Expr::Closure(params, body) => {
            let mut out = String::from_str("|");
            let mut i: usize = 0;
            while i < params.len()
                decreases params.len() - i,
            {
                if i > 0 {
                    out.append(", ");
                }
                out.append(params[i].text.as_str());
                i = i + 1;
            }
            out.append("| ");
            out.append(expr_to_text(body).as_str());
            out
        },
        Expr::Block(stmts) => stmts_to_text(stmts),
        Expr::StateRead(acc, n) => {
            let mut out = acc.clone();
            out.append(".borrow().");
            out.append(n.text.as_str());
            out
        },
        Expr::StateMut(acc, n) => {
            let mut out = acc.clone();
            out.append(".borrow_mut().");
            out.append(n.text.as_str());
            out
        },
    }
}

/// Renders a comma-separated, parenthesized argument list.
fn exprs_to_args_text(args: &Vec<Expr>) -> String
    decreases args,
{
    let mut out = String::from_str("(");
    let mut i: usize = 0;
    while i < args.len()
        decreases args.len() - i,
    {
        if i > 0 {
            out.append(", ");
        }
        out.append(expr_to_text(&args[i]).as_str());
        i = i + 1;
    }
    push_char(&mut out, ')');
    out
}

/// Renders a braced statement block.
pub fn stmts_to_text(stmts: &Vec<Stmt>) -> String
    decreases stmts,
{
    let mut out = String::from_str("{ ");
    let mut i: usize = 0;
    while i < stmts.len()
        decreases stmts.len() - i,
    {
        out.append(stmt_to_text(&stmts[i]).as_str());
        push_char(&mut out, ' ');
        i = i + 1;
    }
    push_char(&mut out, '}');
    out
}

/// Renders one statement; locals keep their `let` form and every statement
/// ends with a semicolon.
pub fn stmt_to_text(s: &Stmt) -> String
    decreases *s,
{
    match s {
        Stmt::Local(d) => local_to_text(d),
        Stmt::Expr(e) => {
            let mut out = expr_to_text(e);
            out.append(" ;");
            out
        },
    }
}

/// Renders one local declaration.
pub fn local_to_text(d: &LocalDecl) -> String
    decreases *d,
{
    let mut out = String::from_str("let ");
    match &d.pat {
        LocalPat::Ident(n) => {
            out.append(n.text.as_str());
        },
        LocalPat::Typed(n, ty) => {
            out.append(n.text.as_str());
            out.append(" : ");
            out.append(ty.as_str());
        },
        LocalPat::Other(_) => {
            out.append("_");
        },
    }
    match &d.init {
        Some(e) => {
            out.append(" = ");
            out.append(expr_to_text(e).as_str());
        },
        None => {},
    }
    out.append(" ;");
    out
}

/// The offset of the first named token in an expression, for diagnostics
/// on expressions that carry no span of their own.
pub fn expr_first_pos(e: &Expr) -> usize
    decreases *e,
{
    match e {
        Expr::Ident(n) => n.pos,
        Expr::LitInt(_) => 0,
        Expr::LitStr(_) => 0,
        Expr::LitBool(_) => 0,
        Expr::Binary(_, l, _) => expr_first_pos(l),
        Expr::Assign(l, _) => expr_first_pos(l),
        Expr::AssignOp(_, l, _) => expr_first_pos(l),
        Expr::MethodCall(recv, _, _) => expr_first_pos(recv),
        Expr::Call(n, _) => n.pos,
        Expr::Field(recv, _) => expr_first_pos(recv),
        Expr::MacroCall(n, _) => n.pos,
        Expr::Closure(_, body) => expr_first_pos(body),
        Expr::Block(_) => 0,
        Expr::StateRead(_, n) => n.pos,
        Expr::StateMut(_, n) => n.pos,
    }
}

} // verus!
