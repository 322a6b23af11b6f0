//! The expression rewriter.
//!
//! A walk over one host expression at a time, parameterized by the set of
//! declared state names and the name of the shared-state accessor in
//! scope. A state identifier that is not locally shadowed and stands as
//! exactly one identifier leaf is replaced by a read accessor, or by a
//! mutable accessor when it is an assignment target or the receiver of a
//! method call. A binary expression is never rewritten wholesale: each
//! operand is recursed into independently, so only identifier leaves are
//! ever wrapped. The walk records which state identifiers were read and
//! which were mutated; those sets drive the update gating downstream.
//!
//! Two conditions are rewrite errors: an assignment target that is more
//! than a single identifier but still references state, and a macro
//! invocation whose arguments reference state.

use vstd::prelude::*;
use crate::diag::Diag;
use crate::expr::clone_expr;
use crate::expr::clone_exprs;
use crate::expr::lemma_view_names_props;
use crate::expr::lemma_view_names_push;
use crate::expr::clone_name;
use crate::expr::view_expr;
use crate::expr::view_exprs;
use crate::expr::view_local;
use crate::expr::view_names;
use crate::expr::view_stmt;
use crate::expr::view_stmts;
use crate::expr::lemma_view_exprs_props;
use crate::expr::lemma_view_exprs_push;
use crate::expr::lemma_view_stmts_props;
use crate::expr::lemma_view_stmts_push;
use crate::expr::Expr;
use crate::expr::ExprV;
use crate::expr::LocalDecl;
use crate::expr::LocalPat;
use crate::expr::Name;
use crate::expr::NameV;
use crate::expr::Stmt;
use crate::expr::StmtV;
use crate::expr::LocalDeclV;
use crate::expr::LocalPatV;
use crate::strutil::str_eq;
use vstd::string::StringExecFns;

verus! {

/// The set of character sequences a list of strings holds.
pub open spec fn name_set(v: Seq<String>) -> Set<Seq<char>> {
    Set::new(|n: Seq<char>| exists|i: int| 0 <= i < v.len() && v[i]@ == n)
}

/// The rewriter's tracked state: identifiers seen, identifiers read from
/// state, identifiers mutated in state, local bindings that shadow state
/// names, and how many rewrite errors were raised.
#[verifier::ext_equal]
pub ghost struct RwView {
    pub names: Set<Seq<char>>,
    pub reads: Set<Seq<char>>,
    pub muts: Set<Seq<char>>,
    pub locals: Set<Seq<char>>,
    pub errs: nat,
}

/// Whether an expression references a state identifier that the locals do
/// not shadow. Used for the two rewrite-error conditions; the shadow set
/// is the one in force where the expression occurs.
pub open spec fn refs_state(e: ExprV, states: Set<Seq<char>>, locals: Set<Seq<char>>) -> bool
    decreases e, 0nat,
{
    match e {
        ExprV::Ident(n) => states.contains(n.text) && !locals.contains(n.text),
        ExprV::LitInt(_) => false,
        ExprV::LitStr(_) => false,
        ExprV::LitBool(_) => false,
        ExprV::Binary(_, l, r) => refs_state(*l, states, locals) || refs_state(*r, states, locals),
        ExprV::Assign(l, r) => refs_state(*l, states, locals) || refs_state(*r, states, locals),
        ExprV::AssignOp(_, l, r) => refs_state(*l, states, locals) || refs_state(
            *r,
            states,
            locals,
        ),
        ExprV::MethodCall(recv, _, args) => refs_state(*recv, states, locals) || refs_state_list(
            args,
            states,
            locals,
        ),
        ExprV::Call(_, args) => refs_state_list(args, states, locals),
        ExprV::Field(recv, _) => refs_state(*recv, states, locals),
        ExprV::MacroCall(_, args) => refs_state_list(args, states, locals),
        ExprV::Closure(_, body) => refs_state(*body, states, locals),
        ExprV::Block(stmts) => refs_state_stmts(stmts, states, locals),
        ExprV::StateRead(_, _) => false,
        ExprV::StateMut(_, _) => false,
    }
}

pub open spec fn refs_state_list(
    s: Seq<ExprV>,
    states: Set<Seq<char>>,
    locals: Set<Seq<char>>,
) -> bool
    decreases s, 1nat,
{
    s.len() > 0 && (refs_state(s[0], states, locals) || refs_state_list(s.skip(1), states, locals))
}

pub open spec fn refs_state_stmts(
    s: Seq<StmtV>,
    states: Set<Seq<char>>,
    locals: Set<Seq<char>>,
) -> bool
    decreases s, 1nat,
{
    s.len() > 0 && (refs_state_stmt(s[0], states, locals) || refs_state_stmts(
        s.skip(1),
        states,
        locals,
    ))
}

pub open spec fn refs_state_stmt(s: StmtV, states: Set<Seq<char>>, locals: Set<Seq<char>>) -> bool
    decreases s, 0nat,
{
    match s {
        StmtV::Local(d) => match d.init {
            Some(e) => refs_state(e, states, locals),
            None => false,
        },
        StmtV::Expr(e) => refs_state(e, states, locals),
    }
}

/// Rewriting one identifier leaf: wrap it in a read or mutable accessor
/// when it names a state field that no local shadows.
pub open spec fn rw_ident(
    n: NameV,
    st: RwView,
    states: Set<Seq<char>>,
    acc: Seq<char>,
    write: bool,
) -> (ExprV, RwView) {
    let st1 = RwView { names: st.names.insert(n.text), ..st };
    if states.contains(n.text) && !st.locals.contains(n.text) {
        if write {
            (ExprV::StateMut(acc, n), RwView { muts: st1.muts.insert(n.text), ..st1 })
        } else {
            (ExprV::StateRead(acc, n), RwView { reads: st1.reads.insert(n.text), ..st1 })
        }
    } else {
        (ExprV::Ident(n), st1)
    }
}

/// The rewrite of one expression, threading the tracked state through the
/// walk in source order.
pub open spec fn rw_expr(
    e: ExprV,
    st: RwView,
    states: Set<Seq<char>>,
    acc: Seq<char>,
    write: bool,
) -> (ExprV, RwView)
    decreases e, 1nat,
{
    match e {
        ExprV::Ident(n) => rw_ident(n, st, states, acc, write),
        ExprV::LitInt(_) => (e, st),
        ExprV::LitStr(_) => (e, st),
        ExprV::LitBool(_) => (e, st),
        ExprV::Binary(op, l, r) => {
            let (l2, s1) = rw_expr(*l, st, states, acc, false);
            let (r2, s2) = rw_expr(*r, s1, states, acc, false);
            (ExprV::Binary(op, Box::new(l2), Box::new(r2)), s2)
        },
        ExprV::Assign(l, r) => {
            let (l2, s1) = rw_target(*l, st, states, acc);
            let (r2, s2) = rw_expr(*r, s1, states, acc, false);
            (ExprV::Assign(Box::new(l2), Box::new(r2)), s2)
        },
        ExprV::AssignOp(op, l, r) => {
            let (l2, s1) = rw_target(*l, st, states, acc);
            let (r2, s2) = rw_expr(*r, s1, states, acc, false);
            (ExprV::AssignOp(op, Box::new(l2), Box::new(r2)), s2)
        },
        ExprV::MethodCall(recv, m, args) => {
            let (recv2, s1) = rw_target(*recv, st, states, acc);
            let s1b = RwView { names: s1.names.insert(m.text), ..s1 };
            let (args2, s2) = rw_list(args, s1b, states, acc);
            (ExprV::MethodCall(Box::new(recv2), m, args2), s2)
        },
        ExprV::Call(f, args) => {
            let st1 = RwView { names: st.names.insert(f.text), ..st };
            let (args2, s2) = rw_list(args, st1, states, acc);
            (ExprV::Call(f, args2), s2)
        },
        ExprV::Field(recv, f) => {
            let (recv2, s1) = rw_expr(*recv, st, states, acc, false);
            let s1b = RwView { names: s1.names.insert(f.text), ..s1 };
            (ExprV::Field(Box::new(recv2), f), s1b)
        },
        ExprV::MacroCall(m, args) => {
            let st1 = RwView { names: st.names.insert(m.text), ..st };
            let st2 = if refs_state_list(args, states, st.locals) {
                RwView { errs: st1.errs + 1, ..st1 }
            } else {
                st1
            };
            (ExprV::MacroCall(m, args), st2)
        },
        ExprV::Closure(params, body) => {
            let st1 = add_params(params, st);
            let (b2, s2) = rw_expr(*body, st1, states, acc, false);
            (ExprV::Closure(params, Box::new(b2)), s2)
        },
        ExprV::Block(stmts) => {
            let (ss, s2) = rw_stmts(stmts, st, states, acc);
            (ExprV::Block(ss), s2)
        },
        ExprV::StateRead(_, _) => (e, st),
        ExprV::StateMut(_, _) => (e, st),
    }
}

/// Rewriting an assignment target or method receiver: a lone identifier
/// is wrapped mutably; any larger expression that still references state
/// is a rewrite error and is then rewritten in read position.
pub open spec fn rw_target(e: ExprV, st: RwView, states: Set<Seq<char>>, acc: Seq<char>) -> (
    ExprV,
    RwView,
)
    decreases e, 2nat,
{
    match e {
        ExprV::Ident(n) => rw_ident(n, st, states, acc, true),
        _ => {
            let st1 = if refs_state(e, states, st.locals) {
                RwView { errs: st.errs + 1, ..st }
            } else {
                st
            };
            rw_expr(e, st1, states, acc, false)
        },
    }
}

/// Closure parameters: each is recorded as seen and shadows state names
/// in the closure body.
pub open spec fn add_params(params: Seq<NameV>, st: RwView) -> RwView
    decreases params,
{
    if params.len() == 0 {
        st
    } else {
        let st1 = RwView {
            names: st.names.insert(params[0].text),
            locals: st.locals.insert(params[0].text),
            ..st
        };
        add_params(params.skip(1), st1)
    }
}

pub open spec fn rw_list(s: Seq<ExprV>, st: RwView, states: Set<Seq<char>>, acc: Seq<char>) -> (
    Seq<ExprV>,
    RwView,
)
    decreases s, 2nat,
{
    if s.len() == 0 {
        (s, st)
    } else {
        let (h, s1) = rw_expr(s[0], st, states, acc, false);
        let (t, s2) = rw_list(s.skip(1), s1, states, acc);
        (seq![h] + t, s2)
    }
}

/// A local declaration shadows from its own binding on; its initializer
/// is rewritten under the shadow, as the walk inserts the binding first.
pub open spec fn rw_local(d: LocalDeclV, st: RwView, states: Set<Seq<char>>, acc: Seq<char>) -> (
    LocalDeclV,
    RwView,
)
    decreases d, 0nat,
{
    let st1 = match d.pat {
        LocalPatV::Ident(n) => RwView {
            names: st.names.insert(n.text),
            locals: st.locals.insert(n.text),
            ..st
        },
        LocalPatV::Typed(n, _) => RwView {
            names: st.names.insert(n.text),
            locals: st.locals.insert(n.text),
            ..st
        },
        LocalPatV::Other(_) => st,
    };
    match d.init {
        Some(e) => {
            let (e2, s2) = rw_expr(e, st1, states, acc, false);
            (LocalDeclV { init: Some(e2), ..d }, s2)
        },
        None => (d, st1),
    }
}

pub open spec fn rw_stmt(s: StmtV, st: RwView, states: Set<Seq<char>>, acc: Seq<char>) -> (
    StmtV,
    RwView,
)
    decreases s, 1nat,
{
    match s {
        StmtV::Local(d) => {
            let (d2, s2) = rw_local(d, st, states, acc);
            (StmtV::Local(d2), s2)
        },
        StmtV::Expr(e) => {
            let (e2, s2) = rw_expr(e, st, states, acc, false);
            (StmtV::Expr(e2), s2)
        },
    }
}

pub open spec fn rw_stmts(s: Seq<StmtV>, st: RwView, states: Set<Seq<char>>, acc: Seq<char>) -> (
    Seq<StmtV>,
    RwView,
)
    decreases s, 2nat,
{
    if s.len() == 0 {
        (s, st)
    } else {
        let (h, s1) = rw_stmt(s[0], st, states, acc);
        let (t, s2) = rw_stmts(s.skip(1), s1, states, acc);
        (seq![h] + t, s2)
    }
}

/// Appending one string adds exactly its text to the set.
pub proof fn lemma_name_set_push(v: Seq<String>, x: String)
    ensures
        name_set(v.push(x)) == name_set(v).insert(x@),
{
    assert forall|n: Seq<char>| name_set(v.push(x)).contains(n) implies name_set(v).insert(
        x@,
    ).contains(n) by {
        let j = choose|j: int| 0 <= j < v.push(x).len() && v.push(x)[j]@ == n;
        if j < v.len() {
            assert(v[j]@ == n);
        }
    }
    assert forall|n: Seq<char>| name_set(v).insert(x@).contains(n) implies name_set(
        v.push(x),
    ).contains(n) by {
        if n == x@ {
            assert(v.push(x)[v.len() as int]@ == n);
        } else {
            let j = choose|j: int| 0 <= j < v.len() && v[j]@ == n;
            assert(v.push(x)[j]@ == n);
        }
    }
    assert(name_set(v.push(x)) =~= name_set(v).insert(x@));
}

/// The mutating walk over host expressions, carrying the declared state
/// names, the accessor in scope, and everything the walk records.
pub struct IdentModifier {
    pub state_names: Vec<String>,
    pub names: Vec<String>,
    pub names_refmut: Vec<String>,
    pub names_ref: Vec<String>,
    pub locals: Vec<String>,
    pub errors: Vec<Diag>,
    pub state_ident: String,
}

impl IdentModifier {
    /// The tracked state as the rewrite specification sees it.
    pub open spec fn rw_view(&self) -> RwView {
        RwView {
            names: name_set(self.names@),
            reads: name_set(self.names_ref@),
            muts: name_set(self.names_refmut@),
            locals: name_set(self.locals@),
            errs: self.errors@.len(),
        }
    }

    /// The declared state names.
    pub open spec fn states_set(&self) -> Set<Seq<char>> {
        name_set(self.state_names@)
    }

    /// A fresh rewriter over the given state names and accessor.
    pub fn new(state_names: Vec<String>, state_ident: String) -> (r: IdentModifier)
        ensures
            r.state_names@ == state_names@,
            r.state_ident@ == state_ident@,
            r.rw_view() == (RwView {
                names: Set::<Seq<char>>::empty(),
                reads: Set::<Seq<char>>::empty(),
                muts: Set::<Seq<char>>::empty(),
                locals: Set::<Seq<char>>::empty(),
                errs: 0,
            }),
    {
        let r = IdentModifier {
            state_names,
            names: Vec::new(),
            names_refmut: Vec::new(),
            names_ref: Vec::new(),
            locals: Vec::new(),
            errors: Vec::new(),
            state_ident,
        };
        proof {
            assert(name_set(r.names@) =~= Set::<Seq<char>>::empty());
            assert(name_set(r.names_ref@) =~= Set::<Seq<char>>::empty());
            assert(name_set(r.names_refmut@) =~= Set::<Seq<char>>::empty());
            assert(name_set(r.locals@) =~= Set::<Seq<char>>::empty());
        }
        r
    }

    /// The identifiers seen outside any local binding.
    pub fn moved_names(&self) -> (r: Vec<String>)
        ensures
            name_set(r@) == name_set(self.names@).difference(name_set(self.locals@)),
    {
        let mut out: Vec<String> = Vec::new();
        let mut i: usize = 0;
        while i < self.names.len()
            invariant
                i <= self.names@.len(),
                forall|n: Seq<char>|
                    #[trigger] name_set(out@).contains(n) <==> ((exists|j: int|
                        0 <= j < i && (#[trigger] self.names@[j])@ == n) && !name_set(
                        self.locals@,
                    ).contains(n)),
            decreases self.names@.len() - i,
        {
            let ghost pre = out@;
            if !contains_name(&self.locals, self.names[i].as_str()) {
                let item = self.names[i].clone();
                proof {
                    lemma_name_set_push(pre, item);
                }
                out.push(item);
            }
            proof {
                assert forall|n: Seq<char>| #[trigger] name_set(out@).contains(n) implies ((
                exists|j: int|
                    0 <= j < i + 1 && (#[trigger] self.names@[j])@ == n) && !name_set(
                    self.locals@,
                ).contains(n)) by {
                    if name_set(pre).contains(n) {
                        let j = choose|j: int| 0 <= j < i && (#[trigger] self.names@[j])@ == n;
                        assert(0 <= j < i + 1 && self.names@[j]@ == n);
                    } else {
                        assert(self.names@[i as int]@ == n);
                    }
                }
                assert forall|n: Seq<char>|
                    ((exists|j: int| 0 <= j < i + 1 && (#[trigger] self.names@[j])@ == n)
                        && !name_set(self.locals@).contains(n)) implies #[trigger] name_set(
                    out@,
                ).contains(n) by {
                    let j = choose|j: int| 0 <= j < i + 1 && (#[trigger] self.names@[j])@ == n;
                    if j < i {
                        assert(name_set(pre).contains(n));
                    }
                }
            }
            i = i + 1;
        }
        proof {
            assert forall|n: Seq<char>| #[trigger] name_set(out@).contains(n) implies name_set(
                self.names@,
            ).difference(name_set(self.locals@)).contains(n) by {
                let j = choose|j: int|
                    0 <= j < self.names@.len() && (#[trigger] self.names@[j])@ == n;
            }
            assert forall|n: Seq<char>|
                name_set(self.names@).difference(name_set(self.locals@)).contains(
                    n,
                ) implies #[trigger] name_set(out@).contains(n) by {
                let j = choose|j: int|
                    0 <= j < self.names@.len() && (#[trigger] self.names@[j])@ == n;
            }
            assert(name_set(out@) =~= name_set(self.names@).difference(name_set(self.locals@)));
        }
        out
    }

    /// The first recorded rewrite error, with the others folded in as far
    /// as a single diagnostic carries them; no errors means acceptance.
    pub fn raise_errors(&self) -> (r: Result<(), Diag>)
        ensures
            r is Ok <==> self.errors@.len() == 0,
            r matches Err(d) ==> d.primary == self.errors@[0].primary,
            r matches Err(d) ==> d.secondary == (if self.errors@[0].secondary is Some {
                self.errors@[0].secondary
            } else if self.errors@.len() > 1 {
                Some(self.errors@[1].primary)
            } else {
                None
            }),
    {
        if self.errors.len() > 0 {
            let first = &self.errors[0];
            let secondary = match &first.secondary {
                Some(s) => Some(crate::diag::DiagPoint { pos: s.pos, msg: s.msg.clone() }),
                None => {
                    if self.errors.len() > 1 {
                        let second = &self.errors[1];
                        Some(
                            crate::diag::DiagPoint {
                                pos: second.primary.pos,
                                msg: second.primary.msg.clone(),
                            },
                        )
                    } else {
                        None
                    }
                },
            };
            Err(
                Diag {
                    primary: crate::diag::DiagPoint {
                        pos: first.primary.pos,
                        msg: first.primary.msg.clone(),
                    },
                    secondary,
                },
            )
        } else {
            Ok(())
        }
    }
}

/// Whether the list holds this exact text.
pub fn contains_name(v: &Vec<String>, x: &str) -> (r: bool)
    ensures
        r == name_set(v@).contains(x@),
{
    let mut i: usize = 0;
    while i < v.len()
        invariant
            i <= v@.len(),
            forall|j: int| 0 <= j < i ==> (#[trigger] v@[j])@ != x@,
        decreases v@.len() - i,
    {
        if str_eq(v[i].as_str(), x) {
            proof {
                assert(name_set(v@).contains(x@));
            }
            return true;
        }
        i = i + 1;
    }
    proof {
        assert(!name_set(v@).contains(x@));
    }
    false
}

/// Appends the text when absent, so the list keeps set meaning.
pub fn insert_name(v: &mut Vec<String>, x: &str)
    ensures
        name_set(final(v)@) == name_set(old(v)@).insert(x@),
{
    let present = contains_name(v, x);
    if !present {
        let item = String::from_str(x);
        proof {
            lemma_name_set_push(v@, item);
        }
        v.push(item);
    } else {
        proof {
            assert forall|n: Seq<char>| name_set(old(v)@).insert(x@).contains(n) implies name_set(
                v@,
            ).contains(n) by {}
            assert(name_set(v@) =~= name_set(old(v)@).insert(x@));
        }
    }
}

/// Appending to a list keeps head-first rewriting composable.
proof fn lemma_rw_list_snoc(
    s: Seq<ExprV>,
    x: ExprV,
    st: RwView,
    states: Set<Seq<char>>,
    acc: Seq<char>,
)
    ensures
        rw_list(s.push(x), st, states, acc) == {
            let (t1, st1) = rw_list(s, st, states, acc);
            let (h2, st2) = rw_expr(x, st1, states, acc, false);
            (t1.push(h2), st2)
        },
    decreases s,
{
    reveal_with_fuel(rw_list, 3);
    if s.len() == 0 {
        assert(s =~= Seq::<ExprV>::empty());
        assert(s.push(x).skip(1) =~= s);
        assert(s.push(x)[0] == x);
        let (h2, st2) = rw_expr(x, st, states, acc, false);
        assert(rw_list(s.push(x), st, states, acc).0 =~= s.push(h2));
        assert(rw_list(s.push(x), st, states, acc).1 == st2);
    } else {
        let (h, s1) = rw_expr(s[0], st, states, acc, false);
        lemma_rw_list_snoc(s.skip(1), x, s1, states, acc);
        assert(s.push(x).skip(1) =~= s.skip(1).push(x));
        assert(s.push(x)[0] == s[0]);
        let (t1, st1) = rw_list(s.skip(1), s1, states, acc);
        let (h2, st2) = rw_expr(x, st1, states, acc, false);
        assert(rw_list(s.push(x), st, states, acc).0 =~= (seq![h] + t1).push(h2));
        assert(rw_list(s.push(x), st, states, acc).1 == st2);
        assert(rw_list(s, st, states, acc).0 == seq![h] + t1);
        assert(rw_list(s, st, states, acc).1 == st1);
    }
}

/// Appending to a statement list keeps head-first rewriting composable.
proof fn lemma_rw_stmts_snoc(
    s: Seq<StmtV>,
    x: StmtV,
    st: RwView,
    states: Set<Seq<char>>,
    acc: Seq<char>,
)
    ensures
        rw_stmts(s.push(x), st, states, acc) == {
            let (t1, st1) = rw_stmts(s, st, states, acc);
            let (h2, st2) = rw_stmt(x, st1, states, acc);
            (t1.push(h2), st2)
        },
    decreases s,
{
    reveal_with_fuel(rw_stmts, 3);
    if s.len() == 0 {
        assert(s =~= Seq::<StmtV>::empty());
        assert(s.push(x).skip(1) =~= s);
        assert(s.push(x)[0] == x);
        let (h2, st2) = rw_stmt(x, st, states, acc);
        assert(rw_stmts(s.push(x), st, states, acc).0 =~= s.push(h2));
        assert(rw_stmts(s.push(x), st, states, acc).1 == st2);
    } else {
        let (h, s1) = rw_stmt(s[0], st, states, acc);
        lemma_rw_stmts_snoc(s.skip(1), x, s1, states, acc);
        assert(s.push(x).skip(1) =~= s.skip(1).push(x));
        assert(s.push(x)[0] == s[0]);
        let (t1, st1) = rw_stmts(s.skip(1), s1, states, acc);
        let (h2, st2) = rw_stmt(x, st1, states, acc);
        assert(rw_stmts(s.push(x), st, states, acc).0 =~= (seq![h] + t1).push(h2));
        assert(rw_stmts(s.push(x), st, states, acc).1 == st2);
        assert(rw_stmts(s, st, states, acc).0 == seq![h] + t1);
        assert(rw_stmts(s, st, states, acc).1 == st1);
    }
}

/// One more closure parameter extends the shadow set by one name.
proof fn lemma_add_params_snoc(params: Seq<NameV>, p: NameV, st: RwView)
    ensures
        add_params(params.push(p), st) == {
            let st1 = add_params(params, st);
            RwView { names: st1.names.insert(p.text), locals: st1.locals.insert(p.text), ..st1 }
        },
    decreases params,
{
    reveal_with_fuel(add_params, 3);
    if params.len() == 0 {
        assert(params =~= Seq::<NameV>::empty());
        assert(params.push(p).skip(1) =~= params);
        assert(params.push(p)[0] == p);
        assert(add_params(params, st) == st);
    } else {
        let st1 = RwView {
            names: st.names.insert(params[0].text),
            locals: st.locals.insert(params[0].text),
            ..st
        };
        lemma_add_params_snoc(params.skip(1), p, st1);
        assert(params.push(p).skip(1) =~= params.skip(1).push(p));
        assert(params.push(p)[0] == params[0]);
    }
}

/// The rewriter never touches its configuration and only appends errors.
pub open spec fn frame_ok(pre: IdentModifier, post: IdentModifier) -> bool {
    &&& post.state_names@ == pre.state_names@
    &&& post.state_ident@ == pre.state_ident@
    &&& post.errors@.len() >= pre.errors@.len()
    &&& post.errors@.take(pre.errors@.len() as int) == pre.errors@
}

proof fn lemma_frame_trans(pre: IdentModifier, mid: IdentModifier, post: IdentModifier)
    requires
        frame_ok(pre, mid),
        frame_ok(mid, post),
    ensures
        frame_ok(pre, post),
{
    assert(post.errors@.take(pre.errors@.len() as int) =~= mid.errors@.take(
        pre.errors@.len() as int,
    ));
}

impl IdentModifier {
    /// Whether an expression references unshadowed state, as the rewrite
    /// errors define it.
    fn refs(&self, e: &Expr) -> (r: bool)
        ensures
            r == refs_state(view_expr(*e), self.states_set(), name_set(self.locals@)),
        decreases *e, 0nat,
    {
        match e {
            Expr::Ident(n) => {
                contains_name(&self.state_names, n.text.as_str()) && !contains_name(
                    &self.locals,
                    n.text.as_str(),
                )
            },
            Expr::LitInt(_) => false,
            Expr::LitStr(_) => false,
            Expr::LitBool(_) => false,
            Expr::Binary(_, l, r) => self.refs(l) || self.refs(r),
            Expr::Assign(l, r) => self.refs(l) || self.refs(r),
            Expr::AssignOp(_, l, r) => self.refs(l) || self.refs(r),
            Expr::MethodCall(recv, _, args) => self.refs(recv) || self.refs_list(args),
            Expr::Call(_, args) => self.refs_list(args),
            Expr::Field(recv, _) => self.refs(recv),
            Expr::MacroCall(_, args) => self.refs_list(args),
            Expr::Closure(_, body) => self.refs(body),
            Expr::Block(stmts) => self.refs_stmts(stmts),
            Expr::StateRead(_, _) => false,
            Expr::StateMut(_, _) => false,
        }
    }

    fn refs_list(&self, args: &Vec<Expr>) -> (r: bool)
        ensures
            r == refs_state_list(view_exprs(args@), self.states_set(), name_set(self.locals@)),
        decreases args, 1nat,
    {
        proof {
            lemma_view_exprs_props(args@);
        }
        let mut i: usize = 0;
        while i < args.len()
            invariant
                i <= args@.len(),
                view_exprs(args@).len() == args@.len(),
                forall|j: int| 0 <= j < args@.len() ==> view_exprs(args@)[j] == view_expr(
                    args@[j],
                ),
                forall|j: int| 0 <= j < i ==> !refs_state(
                    view_exprs(args@)[j],
                    self.states_set(),
                    name_set(self.locals@),
                ),
            decreases args@.len() - i,
        {
            if self.refs(&args[i]) {
                proof {
                    lemma_refs_state_list_index(
                        view_exprs(args@),
                        i as int,
                        self.states_set(),
                        name_set(self.locals@),
                    );
                }
                return true;
            }
            i = i + 1;
        }
        proof {
            lemma_refs_state_list_none(view_exprs(args@), self.states_set(), name_set(self.locals@));
        }
        false
    }

    fn refs_stmts(&self, stmts: &Vec<Stmt>) -> (r: bool)
        ensures
            r == refs_state_stmts(view_stmts(stmts@), self.states_set(), name_set(self.locals@)),
        decreases stmts, 1nat,
    {
        proof {
            lemma_view_stmts_props(stmts@);
        }
        let mut i: usize = 0;
        while i < stmts.len()
            invariant
                i <= stmts@.len(),
                view_stmts(stmts@).len() == stmts@.len(),
                forall|j: int| 0 <= j < stmts@.len() ==> view_stmts(stmts@)[j] == view_stmt(
                    stmts@[j],
                ),
                forall|j: int| 0 <= j < i ==> !refs_state_stmt(
                    view_stmts(stmts@)[j],
                    self.states_set(),
                    name_set(self.locals@),
                ),
            decreases stmts@.len() - i,
        {
            let hit = match &stmts[i] {
                Stmt::Local(d) => match &d.init {
                    Some(e) => self.refs(e),
                    None => false,
                },
                Stmt::Expr(e) => self.refs(e),
            };
            if hit {
                proof {
                    lemma_refs_state_stmts_index(
                        view_stmts(stmts@),
                        i as int,
                        self.states_set(),
                        name_set(self.locals@),
                    );
                }
                return true;
            }
            i = i + 1;
        }
        proof {
            lemma_refs_state_stmts_none(
                view_stmts(stmts@),
                self.states_set(),
                name_set(self.locals@),
            );
        }
        false
    }

    /// Rewrites one identifier leaf, read or write position.
    fn rw_leaf(&mut self, n: &Name, write: bool) -> (r: Expr)
        ensures
            ({
                let (rv, stv) = rw_ident(
                    n@,
                    old(self).rw_view(),
                    old(self).states_set(),
                    old(self).state_ident@,
                    write,
                );
                view_expr(r) == rv && final(self).rw_view() == stv
            }),
            frame_ok(*old(self), *final(self)),
            final(self).locals@ == old(self).locals@,
    {
        let is_state = contains_name(&self.state_names, n.text.as_str());
        let shadowed = contains_name(&self.locals, n.text.as_str());
        insert_name(&mut self.names, n.text.as_str());
        proof {
            lemma_take_whole_errors(self.errors@);
        }
        if is_state && !shadowed {
            if write {
                insert_name(&mut self.names_refmut, n.text.as_str());
                Expr::StateMut(self.state_ident.clone(), clone_name(n))
            } else {
                insert_name(&mut self.names_ref, n.text.as_str());
                Expr::StateRead(self.state_ident.clone(), clone_name(n))
            }
        } else {
            Expr::Ident(clone_name(n))
        }
    }
}

proof fn lemma_take_whole_errors(v: Seq<Diag>)
    ensures
        v.take(v.len() as int) == v,
{
    assert(v.take(v.len() as int) =~= v);
}

proof fn lemma_refs_state_list_index(
    s: Seq<ExprV>,
    i: int,
    states: Set<Seq<char>>,
    locals: Set<Seq<char>>,
)
    requires
        0 <= i < s.len(),
        refs_state(s[i], states, locals),
    ensures
        refs_state_list(s, states, locals),
    decreases i,
{
    if i > 0 {
        assert(s.skip(1)[i - 1] == s[i]);
        lemma_refs_state_list_index(s.skip(1), i - 1, states, locals);
    }
}

proof fn lemma_refs_state_list_none(s: Seq<ExprV>, states: Set<Seq<char>>, locals: Set<Seq<char>>)
    requires
        forall|j: int| 0 <= j < s.len() ==> !refs_state(#[trigger] s[j], states, locals),
    ensures
        !refs_state_list(s, states, locals),
    decreases s,
{
    if s.len() > 0 {
        assert forall|j: int| 0 <= j < s.skip(1).len() implies !refs_state(
            #[trigger] s.skip(1)[j],
            states,
            locals,
        ) by {
            assert(s.skip(1)[j] == s[j + 1]);
        }
        lemma_refs_state_list_none(s.skip(1), states, locals);
    }
}

proof fn lemma_refs_state_stmts_index(
    s: Seq<StmtV>,
    i: int,
    states: Set<Seq<char>>,
    locals: Set<Seq<char>>,
)
    requires
        0 <= i < s.len(),
        refs_state_stmt(s[i], states, locals),
    ensures
        refs_state_stmts(s, states, locals),
    decreases i,
{
    if i > 0 {
        assert(s.skip(1)[i - 1] == s[i]);
        lemma_refs_state_stmts_index(s.skip(1), i - 1, states, locals);
    }
}

proof fn lemma_refs_state_stmts_none(s: Seq<StmtV>, states: Set<Seq<char>>, locals: Set<Seq<char>>)
    requires
        forall|j: int| 0 <= j < s.len() ==> !refs_state_stmt(#[trigger] s[j], states, locals),
    ensures
        !refs_state_stmts(s, states, locals),
    decreases s,
{
    if s.len() > 0 {
        assert forall|j: int| 0 <= j < s.skip(1).len() implies !refs_state_stmt(
            #[trigger] s.skip(1)[j],
            states,
            locals,
        ) by {
            assert(s.skip(1)[j] == s[j + 1]);
        }
        lemma_refs_state_stmts_none(s.skip(1), states, locals);
    }
}


impl IdentModifier {
    /// The rewrite of one expression: identifier leaves that name
    /// unshadowed state fields become accessors; everything else keeps its
    /// structure.
    pub fn rewrite_expr(&mut self, e: &Expr) -> (r: Expr)
        ensures
            ({
                let (rv, stv) = rw_expr(
                    view_expr(*e),
                    old(self).rw_view(),
                    old(self).states_set(),
                    old(self).state_ident@,
                    false,
                );
                view_expr(r) == rv && final(self).rw_view() == stv
            }),
            frame_ok(*old(self), *final(self)),
    {
        self.rw(e, false)
    }

    fn rw(&mut self, e: &Expr, write: bool) -> (r: Expr)
        ensures
            ({
                let (rv, stv) = rw_expr(
                    view_expr(*e),
                    old(self).rw_view(),
                    old(self).states_set(),
                    old(self).state_ident@,
                    write,
                );
                view_expr(r) == rv && final(self).rw_view() == stv
            }),
            frame_ok(*old(self), *final(self)),
        decreases *e, 1nat,
    {
        proof {
            lemma_take_whole_errors(self.errors@);
        }
        match e {
            Expr::Ident(n) => self.rw_leaf(n, write),
            Expr::LitInt(t) => Expr::LitInt(t.clone()),
            Expr::LitStr(t) => Expr::LitStr(t.clone()),
            Expr::LitBool(b) => Expr::LitBool(*b),
            Expr::Binary(op, l, r) => {
                let l2 = self.rw(l, false);
                let ghost mid = *self;
                let r2 = self.rw(r, false);
                proof {
                    lemma_frame_trans(*old(self), mid, *self);
                }
                Expr::Binary(*op, Box::new(l2), Box::new(r2))
            },
            Expr::Assign(l, r) => {
                let l2 = self.rw_target(l);
                let ghost mid = *self;
                let r2 = self.rw(r, false);
                proof {
                    lemma_frame_trans(*old(self), mid, *self);
                }
                Expr::Assign(Box::new(l2), Box::new(r2))
            },
            Expr::AssignOp(op, l, r) => {
                let l2 = self.rw_target(l);
                let ghost mid = *self;
                let r2 = self.rw(r, false);
                proof {
                    lemma_frame_trans(*old(self), mid, *self);
                }
                Expr::AssignOp(*op, Box::new(l2), Box::new(r2))
            },
            Expr::MethodCall(recv, m, args) => {
                let recv2 = self.rw_target(recv);
                let ghost mid1 = *self;
                insert_name(&mut self.names, m.text.as_str());
                proof {
                    lemma_take_whole_errors(self.errors@);
                    lemma_frame_trans(*old(self), mid1, *self);
                }
                let ghost mid2 = *self;
                let args2 = self.rw_vec(args);
                proof {
                    lemma_frame_trans(*old(self), mid2, *self);
                }
                Expr::MethodCall(Box::new(recv2), clone_name(m), args2)
            },
            Expr::Call(f, args) => {
                insert_name(&mut self.names, f.text.as_str());
                proof {
                    lemma_take_whole_errors(self.errors@);
                }
                let ghost mid = *self;
                let args2 = self.rw_vec(args);
                proof {
                    lemma_frame_trans(*old(self), mid, *self);
                }
                Expr::Call(clone_name(f), args2)
            },
            Expr::Field(recv, f) => {
                let recv2 = self.rw(recv, false);
                let ghost mid = *self;
                insert_name(&mut self.names, f.text.as_str());
                proof {
                    lemma_take_whole_errors(self.errors@);
                    lemma_frame_trans(*old(self), mid, *self);
                }
                Expr::Field(Box::new(recv2), clone_name(f))
            },
            Expr::MacroCall(m, args) => {
                insert_name(&mut self.names, m.text.as_str());
                let hit = self.refs_list(args);
                if hit {
                    let ghost pre = self.errors@;
                    self.errors.push(
                        Diag::new(m.pos, String::from_str("Macro are not implemented yet in html.")),
                    );
                    proof {
                        assert(self.errors@.take(old(self).errors@.len() as int) =~= old(
                            self,
                        ).errors@);
                    }
                } else {
                    proof {
                        lemma_take_whole_errors(self.errors@);
                    }
                }
                Expr::MacroCall(clone_name(m), clone_exprs(args))
            },
            Expr::Closure(params, body) => {
                proof {
                    lemma_view_names_props(params@);
                }
                let mut ps: Vec<Name> = Vec::new();
                let mut i: usize = 0;
                while i < params.len()
                    invariant
                        i <= params@.len(),
                        ps@ == params@.take(i as int),
                        self.rw_view() == add_params(
                            view_names(params@.take(i as int)),
                            old(self).rw_view(),
                        ),
                        self.state_names@ == old(self).state_names@,
                        self.state_ident@ == old(self).state_ident@,
                        self.errors@ == old(self).errors@,
                    decreases params@.len() - i,
                {
                    proof {
                        assert(params@.take(i + 1) =~= params@.take(i as int).push(
                            params@[i as int],
                        ));
                        lemma_view_names_push(params@.take(i as int), params@[i as int]);
                        lemma_add_params_snoc(
                            view_names(params@.take(i as int)),
                            params@[i as int]@,
                            old(self).rw_view(),
                        );
                    }
                    let pn = clone_name(&params[i]);
                    insert_name(&mut self.names, pn.text.as_str());
                    insert_name(&mut self.locals, pn.text.as_str());
                    proof {
                        assert(ps@.push(pn) =~= params@.take(i + 1));
                    }
                    ps.push(pn);
                    i = i + 1;
                }
                proof {
                    assert(params@.take(params@.len() as int) =~= params@);
                    lemma_take_whole_errors(self.errors@);
                }
                let ghost mid = *self;
                let b2 = self.rw(body, false);
                proof {
                    lemma_frame_trans(*old(self), mid, *self);
                }
                Expr::Closure(ps, Box::new(b2))
            },
            Expr::Block(stmts) => Expr::Block(self.rw_block(stmts)),
            Expr::StateRead(acc, n) => Expr::StateRead(acc.clone(), clone_name(n)),
            Expr::StateMut(acc, n) => Expr::StateMut(acc.clone(), clone_name(n)),
        }
    }

    /// Rewrites an assignment target or method receiver.
    fn rw_target(&mut self, e: &Expr) -> (r: Expr)
        ensures
            ({
                let (rv, stv) = rw_target(
                    view_expr(*e),
                    old(self).rw_view(),
                    old(self).states_set(),
                    old(self).state_ident@,
                );
                view_expr(r) == rv && final(self).rw_view() == stv
            }),
            frame_ok(*old(self), *final(self)),
        decreases *e, 2nat,
    {
        let is_leaf = match e {
            Expr::Ident(_) => true,
            _ => false,
        };
        match e {
            Expr::Ident(n) => self.rw_leaf(n, true),
            _ => {
                let hit = self.refs(e);
                if hit {
                    let p = crate::expr::expr_first_pos(e);
                    self.errors.push(
                        Diag::new(
                            p,
                            String::from_str(
                                "Assignment target with multiple identifiers is not handled.",
                            ),
                        ),
                    );
                    proof {
                        assert(self.errors@.take(old(self).errors@.len() as int) =~= old(
                            self,
                        ).errors@);
                    }
                } else {
                    proof {
                        lemma_take_whole_errors(self.errors@);
                    }
                }
                let ghost mid = *self;
                let r = self.rw(e, false);
                proof {
                    lemma_frame_trans(*old(self), mid, *self);
                }
                r
            },
        }
    }

    fn rw_vec(&mut self, args: &Vec<Expr>) -> (r: Vec<Expr>)
        ensures
            ({
                let (rv, stv) = rw_list(
                    view_exprs(args@),
                    old(self).rw_view(),
                    old(self).states_set(),
                    old(self).state_ident@,
                );
                view_exprs(r@) == rv && final(self).rw_view() == stv
            }),
            frame_ok(*old(self), *final(self)),
        decreases args, 2nat,
    {
        proof {
            lemma_take_whole_errors(self.errors@);
        }
        let mut out: Vec<Expr> = Vec::new();
        let mut i: usize = 0;
        while i < args.len()
            invariant
                i <= args@.len(),
                ({
                    let (rv, stv) = rw_list(
                        view_exprs(args@.take(i as int)),
                        old(self).rw_view(),
                        old(self).states_set(),
                        old(self).state_ident@,
                    );
                    view_exprs(out@) == rv && self.rw_view() == stv
                }),
                frame_ok(*old(self), *self),
            decreases args@.len() - i,
        {
            proof {
                assert(args@.take(i + 1) =~= args@.take(i as int).push(args@[i as int]));
                lemma_view_exprs_push(args@.take(i as int), args@[i as int]);
                lemma_rw_list_snoc(
                    view_exprs(args@.take(i as int)),
                    view_expr(args@[i as int]),
                    old(self).rw_view(),
                    old(self).states_set(),
                    old(self).state_ident@,
                );
            }
            let ghost mid = *self;
            let h = self.rw(&args[i], false);
            proof {
                lemma_frame_trans(*old(self), mid, *self);
                lemma_view_exprs_push(out@, h);
            }
            out.push(h);
            i = i + 1;
        }
        proof {
            assert(args@.take(args@.len() as int) =~= args@);
        }
        out
    }

    fn rw_block(&mut self, stmts: &Vec<Stmt>) -> (r: Vec<Stmt>)
        ensures
            ({
                let (rv, stv) = rw_stmts(
                    view_stmts(stmts@),
                    old(self).rw_view(),
                    old(self).states_set(),
                    old(self).state_ident@,
                );
                view_stmts(r@) == rv && final(self).rw_view() == stv
            }),
            frame_ok(*old(self), *final(self)),
        decreases stmts, 2nat,
    {
        proof {
            lemma_take_whole_errors(self.errors@);
        }
        let mut out: Vec<Stmt> = Vec::new();
        let mut i: usize = 0;
        while i < stmts.len()
            invariant
                i <= stmts@.len(),
                ({
                    let (rv, stv) = rw_stmts(
                        view_stmts(stmts@.take(i as int)),
                        old(self).rw_view(),
                        old(self).states_set(),
                        old(self).state_ident@,
                    );
                    view_stmts(out@) == rv && self.rw_view() == stv
                }),
                frame_ok(*old(self), *self),
            decreases stmts@.len() - i,
        {
            proof {
                assert(stmts@.take(i + 1) =~= stmts@.take(i as int).push(stmts@[i as int]));
                lemma_view_stmts_push(stmts@.take(i as int), stmts@[i as int]);
                lemma_rw_stmts_snoc(
                    view_stmts(stmts@.take(i as int)),
                    view_stmt(stmts@[i as int]),
                    old(self).rw_view(),
                    old(self).states_set(),
                    old(self).state_ident@,
                );
            }
            let ghost mid = *self;
            let h = self.rw_stmt(&stmts[i]);
            proof {
                lemma_frame_trans(*old(self), mid, *self);
                lemma_view_stmts_push(out@, h);
            }
            out.push(h);
            i = i + 1;
        }
        proof {
            assert(stmts@.take(stmts@.len() as int) =~= stmts@);
        }
        out
    }

    fn rw_stmt(&mut self, s: &Stmt) -> (r: Stmt)
        ensures
            ({
                let (rv, stv) = rw_stmt(
                    view_stmt(*s),
                    old(self).rw_view(),
                    old(self).states_set(),
                    old(self).state_ident@,
                );
                view_stmt(r) == rv && final(self).rw_view() == stv
            }),
            frame_ok(*old(self), *final(self)),
        decreases *s, 1nat,
    {
        match s {
            Stmt::Local(d) => Stmt::Local(self.rw_local(d)),
            Stmt::Expr(e) => Stmt::Expr(self.rw(e, false)),
        }
    }

    fn rw_local(&mut self, d: &LocalDecl) -> (r: LocalDecl)
        ensures
            ({
                let (rv, stv) = rw_local(
                    view_local(*d),
                    old(self).rw_view(),
                    old(self).states_set(),
                    old(self).state_ident@,
                );
                view_local(r) == rv && final(self).rw_view() == stv
            }),
            frame_ok(*old(self), *final(self)),
        decreases *d, 0nat,
    {
        proof {
            lemma_take_whole_errors(self.errors@);
        }
        let pat2 = match &d.pat {
            LocalPat::Ident(n) => {
                insert_name(&mut self.names, n.text.as_str());
                insert_name(&mut self.locals, n.text.as_str());
                LocalPat::Ident(clone_name(n))
            },
            LocalPat::Typed(n, ty) => {
                insert_name(&mut self.names, n.text.as_str());
                insert_name(&mut self.locals, n.text.as_str());
                LocalPat::Typed(clone_name(n), ty.clone())
            },
            LocalPat::Other(p) => LocalPat::Other(*p),
        };
        proof {
            lemma_take_whole_errors(self.errors@);
        }
        let ghost mid = *self;
        let init2 = match &d.init {
            Some(e) => Some(self.rw(e, false)),
            None => None,
        };
        proof {
            lemma_frame_trans(*old(self), mid, *self);
        }
        LocalDecl { pat: pat2, init: init2, let_pos: d.let_pos }
    }
}


/// A state identifier that no local shadows, standing alone in read
/// position, is rewritten into exactly one read accessor, and only its
/// name joins the read set.
pub proof fn lemma_single_ident_read_wrap(
    n: NameV,
    st: RwView,
    states: Set<Seq<char>>,
    acc: Seq<char>,
)
    requires
        states.contains(n.text),
        !st.locals.contains(n.text),
    ensures
        rw_expr(ExprV::Ident(n), st, states, acc, false).0 == ExprV::StateRead(acc, n),
        rw_expr(ExprV::Ident(n), st, states, acc, false).1.reads == st.reads.insert(n.text),
        rw_expr(ExprV::Ident(n), st, states, acc, false).1.muts == st.muts,
        rw_expr(ExprV::Ident(n), st, states, acc, false).1.errs == st.errs,
{
}

/// The same identifier as an assignment target is rewritten into exactly
/// one mutable accessor, and only its name joins the mutable set; the
/// right side is rewritten in read position.
pub proof fn lemma_single_ident_write_wrap(
    n: NameV,
    rhs: ExprV,
    st: RwView,
    states: Set<Seq<char>>,
    acc: Seq<char>,
)
    requires
        states.contains(n.text),
        !st.locals.contains(n.text),
    ensures
        ({
            let target = rw_target(ExprV::Ident(n), st, states, acc);
            let rest = rw_expr(rhs, target.1, states, acc, false);
            rw_expr(
                ExprV::Assign(Box::new(ExprV::Ident(n)), Box::new(rhs)),
                st,
                states,
                acc,
                false,
            ) == (
                ExprV::Assign(Box::new(ExprV::StateMut(acc, n)), Box::new(rest.0)),
                rest.1,
            )
        }),
        rw_target(ExprV::Ident(n), st, states, acc).1.muts == st.muts.insert(n.text),
        rw_target(ExprV::Ident(n), st, states, acc).1.errs == st.errs,
{
    reveal_with_fuel(rw_target, 2);
    let e = ExprV::Assign(Box::new(ExprV::Ident(n)), Box::new(rhs));
    let (lt, st1) = rw_target(ExprV::Ident(n), st, states, acc);
    assert(lt == ExprV::StateMut(acc, n));
    assert(st1.muts == st.muts.insert(n.text));
    let (r2, st2) = rw_expr(rhs, st1, states, acc, false);
    assert(rw_expr(e, st, states, acc, false).0 == ExprV::Assign(Box::new(lt), Box::new(r2)));
    assert(rw_expr(e, st, states, acc, false).1 == st2);
}

/// A binary expression whose operands are single state identifiers is
/// never wrapped wholesale: each operand alone becomes a read accessor.
pub proof fn lemma_binary_operands_wrap(
    op: crate::expr::BinOp,
    a: NameV,
    b: NameV,
    st: RwView,
    states: Set<Seq<char>>,
    acc: Seq<char>,
)
    requires
        states.contains(a.text),
        !st.locals.contains(a.text),
        states.contains(b.text),
        !st.locals.contains(b.text),
    ensures
        rw_expr(
            ExprV::Binary(op, Box::new(ExprV::Ident(a)), Box::new(ExprV::Ident(b))),
            st,
            states,
            acc,
            false,
        ).0 == ExprV::Binary(op, Box::new(ExprV::StateRead(acc, a)), Box::new(
            ExprV::StateRead(acc, b),
        )),
{
    reveal_with_fuel(rw_expr, 3);
}


/// The operator fragment of the expression model: identifier leaves,
/// literals, binary operators, assignments, compound assignments and
/// field accesses — the shapes the single-identifier rewrite rule speaks
/// about.
pub open spec fn op_frag(e: ExprV) -> bool
    decreases e,
{
    match e {
        ExprV::Ident(_) => true,
        ExprV::LitInt(_) => true,
        ExprV::LitStr(_) => true,
        ExprV::LitBool(_) => true,
        ExprV::Binary(_, l, r) => op_frag(*l) && op_frag(*r),
        ExprV::Assign(l, r) => op_frag(*l) && op_frag(*r),
        ExprV::AssignOp(_, l, r) => op_frag(*l) && op_frag(*r),
        ExprV::Field(recv, _) => op_frag(*recv),
        _ => false,
    }
}

/// How many accessors stand in an operator-fragment expression, read and
/// mutable ones separately.
pub open spec fn read_wrap_count(e: ExprV) -> nat
    decreases e,
{
    match e {
        ExprV::StateRead(_, _) => 1,
        ExprV::Binary(_, l, r) => read_wrap_count(*l) + read_wrap_count(*r),
        ExprV::Assign(l, r) => read_wrap_count(*l) + read_wrap_count(*r),
        ExprV::AssignOp(_, l, r) => read_wrap_count(*l) + read_wrap_count(*r),
        ExprV::Field(recv, _) => read_wrap_count(*recv),
        _ => 0,
    }
}

pub open spec fn mut_wrap_count(e: ExprV) -> nat
    decreases e,
{
    match e {
        ExprV::StateMut(_, _) => 1,
        ExprV::Binary(_, l, r) => mut_wrap_count(*l) + mut_wrap_count(*r),
        ExprV::Assign(l, r) => mut_wrap_count(*l) + mut_wrap_count(*r),
        ExprV::AssignOp(_, l, r) => mut_wrap_count(*l) + mut_wrap_count(*r),
        ExprV::Field(recv, _) => mut_wrap_count(*recv),
        _ => 0,
    }
}

/// How many unshadowed state-identifier occurrences stand in read
/// position of an operator-fragment expression: everything except a lone
/// identifier that is an assignment target.
pub open spec fn read_occ_count(e: ExprV, states: Set<Seq<char>>, locals: Set<Seq<char>>) -> nat
    decreases e, 0nat,
{
    match e {
        ExprV::Ident(n) => if states.contains(n.text) && !locals.contains(n.text) {
            1nat
        } else {
            0nat
        },
        ExprV::Binary(_, l, r) => read_occ_count(*l, states, locals) + read_occ_count(
            *r,
            states,
            locals,
        ),
        ExprV::Assign(l, r) => target_read_occ_count(*l, states, locals) + read_occ_count(
            *r,
            states,
            locals,
        ),
        ExprV::AssignOp(_, l, r) => target_read_occ_count(*l, states, locals) + read_occ_count(
            *r,
            states,
            locals,
        ),
        ExprV::Field(recv, _) => read_occ_count(*recv, states, locals),
        _ => 0,
    }
}

/// Read-position occurrences of an assignment target: a lone state
/// identifier is the write target, anything larger is recursed in read
/// position.
pub open spec fn target_read_occ_count(
    e: ExprV,
    states: Set<Seq<char>>,
    locals: Set<Seq<char>>,
) -> nat
    decreases e, 1nat,
{
    match e {
        ExprV::Ident(_) => 0,
        _ => read_occ_count(e, states, locals),
    }
}

/// How many unshadowed state-identifier occurrences stand in write
/// position: only lone identifiers that are assignment targets.
pub open spec fn write_occ_count(e: ExprV, states: Set<Seq<char>>, locals: Set<Seq<char>>) -> nat
    decreases e, 0nat,
{
    match e {
        ExprV::Binary(_, l, r) => write_occ_count(*l, states, locals) + write_occ_count(
            *r,
            states,
            locals,
        ),
        ExprV::Assign(l, r) => target_write_occ_count(*l, states, locals) + write_occ_count(
            *r,
            states,
            locals,
        ),
        ExprV::AssignOp(_, l, r) => target_write_occ_count(*l, states, locals) + write_occ_count(
            *r,
            states,
            locals,
        ),
        ExprV::Field(recv, _) => write_occ_count(*recv, states, locals),
        _ => 0,
    }
}

pub open spec fn target_write_occ_count(
    e: ExprV,
    states: Set<Seq<char>>,
    locals: Set<Seq<char>>,
) -> nat
    decreases e, 1nat,
{
    match e {
        ExprV::Ident(n) => if states.contains(n.text) && !locals.contains(n.text) {
            1nat
        } else {
            0nat
        },
        _ => write_occ_count(e, states, locals),
    }
}

/// Accessor-free: the expression has not been rewritten yet.
pub open spec fn no_accessors(e: ExprV) -> bool
    decreases e,
{
    match e {
        ExprV::StateRead(_, _) => false,
        ExprV::StateMut(_, _) => false,
        ExprV::Binary(_, l, r) => no_accessors(*l) && no_accessors(*r),
        ExprV::Assign(l, r) => no_accessors(*l) && no_accessors(*r),
        ExprV::AssignOp(_, l, r) => no_accessors(*l) && no_accessors(*r),
        ExprV::Field(recv, _) => no_accessors(*recv),
        _ => true,
    }
}

/// The rewriter keeps the locals unchanged across an operator-fragment
/// expression: only blocks and closures bind.
proof fn lemma_rw_op_frag_locals(e: ExprV, st: RwView, states: Set<Seq<char>>, acc: Seq<char>)
    requires
        op_frag(e),
    ensures
        rw_expr(e, st, states, acc, false).1.locals == st.locals,
    decreases e, 0nat,
{
    match e {
        ExprV::Binary(_, l, r) => {
            lemma_rw_op_frag_locals(*l, st, states, acc);
            let s1 = rw_expr(*l, st, states, acc, false).1;
            lemma_rw_op_frag_locals(*r, s1, states, acc);
        },
        ExprV::Assign(l, r) => {
            lemma_rw_target_op_frag_locals(*l, st, states, acc);
            let s1 = rw_target(*l, st, states, acc).1;
            lemma_rw_op_frag_locals(*r, s1, states, acc);
        },
        ExprV::AssignOp(_, l, r) => {
            lemma_rw_target_op_frag_locals(*l, st, states, acc);
            let s1 = rw_target(*l, st, states, acc).1;
            lemma_rw_op_frag_locals(*r, s1, states, acc);
        },
        ExprV::Field(recv, _) => {
            lemma_rw_op_frag_locals(*recv, st, states, acc);
        },
        _ => {},
    }
}

proof fn lemma_rw_target_op_frag_locals(
    e: ExprV,
    st: RwView,
    states: Set<Seq<char>>,
    acc: Seq<char>,
)
    requires
        op_frag(e),
    ensures
        rw_target(e, st, states, acc).1.locals == st.locals,
    decreases e, 1nat,
{
    match e {
        ExprV::Ident(_) => {},
        _ => {
            let st1 = if refs_state(e, states, st.locals) {
                RwView { errs: st.errs + 1, ..st }
            } else {
                st
            };
            lemma_rw_op_frag_locals(e, st1, states, acc);
        },
    }
}

/// The single-identifier rewrite rule, stated generally over the
/// operator fragment: rewriting an accessor-free expression puts exactly
/// one read accessor for each unshadowed state identifier in read
/// position, exactly one mutable accessor for each one standing as an
/// assignment target, and never an accessor anywhere else.
pub proof fn lemma_rewrite_wrap_counts(
    e: ExprV,
    st: RwView,
    states: Set<Seq<char>>,
    acc: Seq<char>,
)
    requires
        op_frag(e),
        no_accessors(e),
    ensures
        read_wrap_count(rw_expr(e, st, states, acc, false).0) == read_occ_count(
            e,
            states,
            st.locals,
        ),
        mut_wrap_count(rw_expr(e, st, states, acc, false).0) == write_occ_count(
            e,
            states,
            st.locals,
        ),
    decreases e, 0nat,
{
    match e {
        ExprV::Binary(_, l, r) => {
            lemma_rewrite_wrap_counts(*l, st, states, acc);
            let s1 = rw_expr(*l, st, states, acc, false).1;
            lemma_rw_op_frag_locals(*l, st, states, acc);
            lemma_rewrite_wrap_counts(*r, s1, states, acc);
        },
        ExprV::Assign(l, r) => {
            lemma_rewrite_target_wrap_counts(*l, st, states, acc);
            let s1 = rw_target(*l, st, states, acc).1;
            lemma_rw_target_op_frag_locals(*l, st, states, acc);
            lemma_rewrite_wrap_counts(*r, s1, states, acc);
        },
        ExprV::AssignOp(_, l, r) => {
            lemma_rewrite_target_wrap_counts(*l, st, states, acc);
            let s1 = rw_target(*l, st, states, acc).1;
            lemma_rw_target_op_frag_locals(*l, st, states, acc);
            lemma_rewrite_wrap_counts(*r, s1, states, acc);
        },
        ExprV::Field(recv, _) => {
            lemma_rewrite_wrap_counts(*recv, st, states, acc);
        },
        _ => {},
    }
}

/// The same, for an assignment target.
pub proof fn lemma_rewrite_target_wrap_counts(
    e: ExprV,
    st: RwView,
    states: Set<Seq<char>>,
    acc: Seq<char>,
)
    requires
        op_frag(e),
        no_accessors(e),
    ensures
        read_wrap_count(rw_target(e, st, states, acc).0) == target_read_occ_count(
            e,
            states,
            st.locals,
        ),
        mut_wrap_count(rw_target(e, st, states, acc).0) == target_write_occ_count(
            e,
            states,
            st.locals,
        ),
    decreases e, 1nat,
{
    match e {
        ExprV::Ident(_) => {},
        _ => {
            let st1 = if refs_state(e, states, st.locals) {
                RwView { errs: st.errs + 1, ..st }
            } else {
                st
            };
            lemma_rewrite_wrap_counts(e, st1, states, acc);
        },
    }
}

} // verus!
