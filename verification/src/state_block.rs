//! Classification of the host block's local declarations.
//!
//! A declaration with an explicit type annotation becomes a reactive
//! [`State`] field; an untyped declaration whose initializer is a function
//! literal becomes an [`EventClosure`]. Any other declaration shape is a
//! fatal declaration error: a missing type annotation, or an unsupported
//! local form.

use vstd::prelude::*;
use crate::diag::Diag;
use crate::expr::clone_expr;
use crate::expr::clone_local;
use crate::expr::clone_name;
use crate::expr::view_expr;
use crate::expr::view_local;
use crate::expr::Expr;
use crate::expr::ExprV;
use crate::expr::LocalDecl;
use crate::expr::LocalPat;
use crate::expr::Name;
use crate::expr::NameV;
use crate::expr::Stmt;
use crate::expr::stmt_to_text;
use crate::strutil::push_char;
use vstd::string::StringExecFns;

verus! {

/// One reactive state field: its identifier, its declared type as text,
/// and the whole declaration, kept verbatim for state-construction code.
#[derive(Debug)]
pub struct State {
    pub ident: Name,
    pub ty: String,
    pub local: LocalDecl,
}

/// One event handler: an untyped declaration whose initializer is a
/// function literal.
#[derive(Debug)]
pub struct EventClosure {
    pub ident: Name,
    pub closure: Expr,
    pub local: LocalDecl,
}

/// The extractor's output: state fields and event handlers in source
/// order, plus the block's statements rendered back to text.
#[derive(Debug)]
pub struct LocalDetails {
    pub states: Vec<State>,
    pub events_closures: Vec<EventClosure>,
    pub block: String,
}

/// Which declaration error a statement raises, if any.
pub ghost enum DeclErr {
    /// Untyped declaration whose initializer is no function literal.
    MissingType { pos: int },
    /// A pattern shape the extractor does not handle.
    Unsupported { pos: int },
}

/// The error one statement raises: locals only; expression statements are
/// ignored.
pub open spec fn head_decl_err(s: Stmt) -> Option<DeclErr> {
    match s {
        Stmt::Local(d) => match d.pat {
            LocalPat::Typed(_, _) => None,
            LocalPat::Ident(n) => match d.init {
                Some(Expr::Closure(_, _)) => None,
                _ => Some(DeclErr::MissingType { pos: n.pos as int }),
            },
            LocalPat::Other(_) => Some(DeclErr::Unsupported { pos: d.let_pos as int }),
        },
        Stmt::Expr(_) => None,
    }
}

/// The first declaration error in the block, in source order.
pub open spec fn first_decl_err(s: Seq<Stmt>) -> Option<DeclErr>
    decreases s,
{
    if s.len() == 0 {
        None
    } else if head_decl_err(s[0]) is Some {
        head_decl_err(s[0])
    } else {
        first_decl_err(s.skip(1))
    }
}

/// Whether a statement contributes a state field.
pub open spec fn is_state_decl(s: Stmt) -> bool {
    s matches Stmt::Local(d) && d.pat is Typed
}

/// Whether a statement contributes an event handler.
pub open spec fn is_event_decl(s: Stmt) -> bool {
    &&& s matches Stmt::Local(d)
    &&& d.pat is Ident
    &&& d.init matches Some(e)
    &&& e is Closure
}

/// The typed declarations of the block, in source order.
pub open spec fn state_decls(s: Seq<Stmt>) -> Seq<LocalDecl>
    decreases s,
{
    if s.len() == 0 {
        Seq::empty()
    } else {
        let rest = state_decls(s.skip(1));
        if is_state_decl(s[0]) {
            seq![s[0]->Local_0] + rest
        } else {
            rest
        }
    }
}

/// The event-handler declarations of the block, in source order.
pub open spec fn event_decls(s: Seq<Stmt>) -> Seq<LocalDecl>
    decreases s,
{
    if s.len() == 0 {
        Seq::empty()
    } else {
        let rest = event_decls(s.skip(1));
        if is_event_decl(s[0]) {
            seq![s[0]->Local_0] + rest
        } else {
            rest
        }
    }
}

/// The identifier a typed declaration binds.
pub open spec fn typed_decl_name(d: LocalDecl) -> NameV {
    match d.pat {
        LocalPat::Typed(n, _) => n@,
        _ => arbitrary(),
    }
}

/// The declared type of a typed declaration, as text.
pub open spec fn typed_decl_ty(d: LocalDecl) -> Seq<char> {
    match d.pat {
        LocalPat::Typed(_, ty) => ty@,
        _ => arbitrary(),
    }
}

/// The identifier an untyped declaration binds.
pub open spec fn untyped_decl_name(d: LocalDecl) -> NameV {
    match d.pat {
        LocalPat::Ident(n) => n@,
        _ => arbitrary(),
    }
}

/// The initializer expression of a declaration.
pub open spec fn decl_init(d: LocalDecl) -> ExprV {
    match d.init {
        Some(e) => view_expr(e),
        None => arbitrary(),
    }
}

proof fn lemma_state_decls_snoc(s: Seq<Stmt>, x: Stmt)
    ensures
        state_decls(s.push(x)) == if is_state_decl(x) {
            state_decls(s).push(x->Local_0)
        } else {
            state_decls(s)
        },
    decreases s,
{
    if s.len() == 0 {
        assert(s.push(x).skip(1) =~= Seq::<Stmt>::empty());
        assert(s.push(x)[0] == x);
        assert(state_decls(Seq::<Stmt>::empty()) == Seq::<LocalDecl>::empty());
        if is_state_decl(x) {
            assert(state_decls(s.push(x)) =~= state_decls(s).push(x->Local_0));
        }
    } else {
        lemma_state_decls_snoc(s.skip(1), x);
        assert(s.push(x).skip(1) =~= s.skip(1).push(x));
        assert(s.push(x)[0] == s[0]);
        if is_state_decl(x) {
            if is_state_decl(s[0]) {
                assert(state_decls(s.push(x)) =~= state_decls(s).push(x->Local_0));
            } else {
                assert(state_decls(s.push(x)) =~= state_decls(s).push(x->Local_0));
            }
        }
    }
}

proof fn lemma_event_decls_snoc(s: Seq<Stmt>, x: Stmt)
    ensures
        event_decls(s.push(x)) == if is_event_decl(x) {
            event_decls(s).push(x->Local_0)
        } else {
            event_decls(s)
        },
    decreases s,
{
    if s.len() == 0 {
        assert(s.push(x).skip(1) =~= Seq::<Stmt>::empty());
        assert(s.push(x)[0] == x);
        assert(event_decls(Seq::<Stmt>::empty()) == Seq::<LocalDecl>::empty());
        if is_event_decl(x) {
            assert(event_decls(s.push(x)) =~= event_decls(s).push(x->Local_0));
        }
    } else {
        lemma_event_decls_snoc(s.skip(1), x);
        assert(s.push(x).skip(1) =~= s.skip(1).push(x));
        assert(s.push(x)[0] == s[0]);
        if is_event_decl(x) {
            if is_event_decl(s[0]) {
                assert(event_decls(s.push(x)) =~= event_decls(s).push(x->Local_0));
            } else {
                assert(event_decls(s.push(x)) =~= event_decls(s).push(x->Local_0));
            }
        }
    }
}

proof fn lemma_first_decl_err_snoc(s: Seq<Stmt>, x: Stmt)
    ensures
        first_decl_err(s.push(x)) == if first_decl_err(s) is Some {
            first_decl_err(s)
        } else {
            head_decl_err(x)
        },
    decreases s,
{
    if s.len() == 0 {
        assert(s.push(x).skip(1) =~= Seq::<Stmt>::empty());
        assert(s.push(x)[0] == x);
        assert(first_decl_err(Seq::<Stmt>::empty()) is None);
    } else {
        lemma_first_decl_err_snoc(s.skip(1), x);
        assert(s.push(x).skip(1) =~= s.skip(1).push(x));
        assert(s.push(x)[0] == s[0]);
    }
}

proof fn lemma_first_decl_err_prefix(s: Seq<Stmt>, k: int)
    requires
        0 <= k <= s.len(),
        first_decl_err(s.take(k)) is Some,
    ensures
        first_decl_err(s) == first_decl_err(s.take(k)),
    decreases k,
{
    assert(k > 0);
    assert(s.take(k)[0] == s[0]);
    if head_decl_err(s[0]) is Some {
    } else {
        assert(s.take(k).skip(1) =~= s.skip(1).take(k - 1));
        lemma_first_decl_err_prefix(s.skip(1), k - 1);
    }
}

/// A state field exists under this identifier.
pub open spec fn states_contain(states: Seq<State>, id: Seq<char>) -> bool {
    exists|i: int| 0 <= i < states.len() && (#[trigger] states[i]).ident.text@ == id
}

/// An event handler exists under this identifier.
pub open spec fn events_contain(events: Seq<EventClosure>, id: Seq<char>) -> bool {
    exists|i: int| 0 <= i < events.len() && (#[trigger] events[i]).ident.text@ == id
}

impl LocalDetails {
    /// Accepts exactly the identifiers declared as state fields; rejecting
    /// cites the identifier's own location.
    pub fn states_contains_ident(&self, ident: &Name) -> (r: Result<(), Diag>)
        ensures
            r is Ok <==> states_contain(self.states@, ident.text@),
            r matches Err(d) ==> d.primary.pos == ident.pos && d.secondary is None && d.primary.msg@
                == "Variable is not declared in state's block."@,
    {
        let mut i: usize = 0;
        while i < self.states.len()
            invariant
                i <= self.states@.len(),
                forall|j: int| 0 <= j < i ==> (#[trigger] self.states@[j]).ident.text@
                    != ident.text@,
            decreases self.states@.len() - i,
        {
            if crate::strutil::str_eq(self.states[i].ident.text.as_str(), ident.text.as_str()) {
                return Ok(());
            }
            i = i + 1;
        }
        Err(Diag::new(ident.pos, String::from_str("Variable is not declared in state's block.")))
    }

    /// Accepts exactly the identifiers declared as event handlers;
    /// rejecting cites the identifier's own location.
    pub fn events_contains_ident(&self, ident: &Name) -> (r: Result<(), Diag>)
        ensures
            r is Ok <==> events_contain(self.events_closures@, ident.text@),
            r matches Err(d) ==> d.primary.pos == ident.pos && d.secondary is None && d.primary.msg@
                == "event's callback not declared in state's block."@,
    {
        let mut i: usize = 0;
        while i < self.events_closures.len()
            invariant
                i <= self.events_closures@.len(),
                forall|j: int| 0 <= j < i ==> (#[trigger] self.events_closures@[j]).ident.text@
                    != ident.text@,
            decreases self.events_closures@.len() - i,
        {
            if crate::strutil::str_eq(
                self.events_closures[i].ident.text.as_str(),
                ident.text.as_str(),
            ) {
                return Ok(());
            }
            i = i + 1;
        }
        Err(
            Diag::new(
                ident.pos,
                String::from_str("event's callback not declared in state's block."),
            ),
        )
    }
}

/// Walks the host block's top-level statements in source order and
/// classifies each local declaration: typed declarations become state
/// fields, untyped function-literal declarations become event handlers,
/// and anything else is the block's first declaration error.
pub fn extract_locals(block: &Vec<Stmt>) -> (r: Result<LocalDetails, Diag>)
    ensures
        r is Ok <==> first_decl_err(block@) is None,
        r matches Err(d) ==> {
            &&& d.secondary is None
            &&& match first_decl_err(block@) {
                Some(DeclErr::MissingType { pos }) => d.primary.pos == pos && d.primary.msg@
                    == "You must add a type. (Automatic type detection is not yet implemented)"@,
                Some(DeclErr::Unsupported { pos }) => d.primary.pos == pos && d.primary.msg@
                    == "This type of local is not handled yet."@,
                None => false,
            }
        },
        r matches Ok(det) ==> {
            &&& det.states@.len() == state_decls(block@).len()
            &&& forall|i: int| 0 <= i < det.states@.len() ==> {
                &&& (#[trigger] det.states@[i]).ident@ == typed_decl_name(state_decls(block@)[i])
                &&& det.states@[i].ty@ == typed_decl_ty(state_decls(block@)[i])
                &&& view_local(det.states@[i].local) == view_local(state_decls(block@)[i])
            }
            &&& det.events_closures@.len() == event_decls(block@).len()
            &&& forall|i: int| 0 <= i < det.events_closures@.len() ==> {
                &&& (#[trigger] det.events_closures@[i]).ident@ == untyped_decl_name(
                    event_decls(block@)[i],
                )
                &&& view_expr(det.events_closures@[i].closure) == decl_init(event_decls(block@)[i])
                &&& view_local(det.events_closures@[i].local) == view_local(
                    event_decls(block@)[i],
                )
            }
        },
{
    let mut states: Vec<State> = Vec::new();
    let mut events: Vec<EventClosure> = Vec::new();
    let mut i: usize = 0;
    while i < block.len()
        invariant
            i <= block@.len(),
            first_decl_err(block@.take(i as int)) is None,
            states@.len() == state_decls(block@.take(i as int)).len(),
            forall|j: int| 0 <= j < states@.len() ==> {
                &&& (#[trigger] states@[j]).ident@ == typed_decl_name(
                    state_decls(block@.take(i as int))[j],
                )
                &&& states@[j].ty@ == typed_decl_ty(state_decls(block@.take(i as int))[j])
                &&& view_local(states@[j].local) == view_local(
                    state_decls(block@.take(i as int))[j],
                )
            },
            events@.len() == event_decls(block@.take(i as int)).len(),
            forall|j: int| 0 <= j < events@.len() ==> {
                &&& (#[trigger] events@[j]).ident@ == untyped_decl_name(
                    event_decls(block@.take(i as int))[j],
                )
                &&& view_expr(events@[j].closure) == decl_init(event_decls(block@.take(i as int))[j])
                &&& view_local(events@[j].local) == view_local(
                    event_decls(block@.take(i as int))[j],
                )
            },
        decreases block@.len() - i,
    {
        let ghost prefix = block@.take(i as int);
        proof {
            assert(block@.take(i + 1) =~= prefix.push(block@[i as int]));
            lemma_state_decls_snoc(prefix, block@[i as int]);
            lemma_event_decls_snoc(prefix, block@[i as int]);
            lemma_first_decl_err_snoc(prefix, block@[i as int]);
        }
        match &block[i] {
            Stmt::Local(d) => {
                match &d.pat {
                    LocalPat::Typed(n, ty) => {
                        states.push(
                            State { ident: clone_name(n), ty: ty.clone(), local: clone_local(d) },
                        );
                    },
                    LocalPat::Ident(n) => {
                        let mut is_closure = false;
                        match &d.init {
                            Some(e) => {
                                match e {
                                    Expr::Closure(_, _) => {
                                        is_closure = true;
                                    },
                                    _ => {},
                                }
                            },
                            None => {},
                        }
                        if is_closure {
                            let closure = match &d.init {
                                Some(e) => clone_expr(e),
                                None => {
                                    proof {
                                        assert(false);
                                    }
                                    Expr::LitBool(false)
                                },
                            };
                            events.push(
                                EventClosure {
                                    ident: clone_name(n),
                                    closure,
                                    local: clone_local(d),
                                },
                            );
                        } else {
                            proof {
                                lemma_first_decl_err_prefix(block@, i + 1);
                            }
                            return Err(
                                Diag::new(
                                    n.pos,
                                    String::from_str(
                                        "You must add a type. (Automatic type detection is not yet implemented)",
                                    ),
                                ),
                            );
                        }
                    },
                    LocalPat::Other(_) => {
                        proof {
                            lemma_first_decl_err_prefix(block@, i + 1);
                        }
                        return Err(
                            Diag::new(
                                d.let_pos,
                                String::from_str("This type of local is not handled yet."),
                            ),
                        );
                    },
                }
            },
            Stmt::Expr(_) => {},
        }
        i = i + 1;
    }
    proof {
        assert(block@.take(block@.len() as int) =~= block@);
    }
    let block_text = stmts_text_joined(block);
    Ok(LocalDetails { states, events_closures: events, block: block_text })
}

/// Renders the block's statements back to text, one per line.
pub fn stmts_text_joined(block: &Vec<Stmt>) -> String {
    let mut out = String::new();
    let mut i: usize = 0;
    while i < block.len()
        decreases block@.len() - i,
    {
        if i > 0 {
            push_char(&mut out, '\n');
        }
        out.append(stmt_to_text(&block[i]).as_str());
        i = i + 1;
    }
    out
}


/// The set of declared state-field names.
pub open spec fn states_name_set(states: Seq<State>) -> Set<Seq<char>> {
    Set::new(|n: Seq<char>| states_contain(states, n))
}

impl LocalDetails {
    /// A fresh expression rewriter over this block's state names, bound to
    /// the given shared-state accessor.
    pub fn get_ident_modifier(&self, state_ident: &str) -> (r: crate::visitor::ident::IdentModifier)
        ensures
            r.states_set() == states_name_set(self.states@),
            r.state_ident@ == state_ident@,
            r.rw_view() == (crate::visitor::ident::RwView {
                names: Set::<Seq<char>>::empty(),
                reads: Set::<Seq<char>>::empty(),
                muts: Set::<Seq<char>>::empty(),
                locals: Set::<Seq<char>>::empty(),
                errs: 0,
            }),
    {
        let mut names: Vec<String> = Vec::new();
        let mut i: usize = 0;
        while i < self.states.len()
            invariant
                i <= self.states@.len(),
                names@.len() == i,
                forall|j: int| 0 <= j < i ==> (#[trigger] names@[j])@ == self.states@[j].ident.text@,
            decreases self.states@.len() - i,
        {
            names.push(self.states[i].ident.text.clone());
            i = i + 1;
        }
        proof {
            assert forall|n: Seq<char>|
                crate::visitor::ident::name_set(names@).contains(n) implies states_name_set(
                self.states@,
            ).contains(n) by {
                let j = choose|j: int| 0 <= j < names@.len() && (#[trigger] names@[j])@ == n;
                assert(self.states@[j].ident.text@ == n);
            }
            assert forall|n: Seq<char>|
                states_name_set(self.states@).contains(n) implies crate::visitor::ident::name_set(
                names@,
            ).contains(n) by {
                let j = choose|j: int|
                    0 <= j < self.states@.len() && (#[trigger] self.states@[j]).ident.text@ == n;
                assert(names@[j]@ == n);
            }
            assert(crate::visitor::ident::name_set(names@) =~= states_name_set(self.states@));
        }
        crate::visitor::ident::IdentModifier::new(names, String::from_str(state_ident))
    }
}

} // verus!
