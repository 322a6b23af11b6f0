//! The DOM instruction compiler.
//!
//! One [`Dom`] is a compilation unit: it walks a contiguous region of the
//! element tree and fills five ordered instruction buckets — create
//! (init), mount, mount-once, update and teardown (drop) — plus the node
//! fields, the props and the nested child scopes for loop bodies.
//! Statements land in their bucket in document order. Generated node
//! names pair a tag with a monotonic per-tag counter local to the owning
//! scope, so names are unique within it and never reused.

use vstd::prelude::*;
use crate::diag::Diag;
use crate::expr::clone_expr;
use crate::expr::clone_name;
use crate::expr::expr_to_text;
use crate::expr::view_expr;
use crate::expr::Expr;
use crate::expr::Name;
use crate::html::Attribute;
use crate::html::AttrExprType;
use crate::html::Classic;
use crate::html::Condition;
use crate::html::Element;
use crate::html::ExprElement;
use crate::html::ForPat;
use crate::state_block::states_contain;
use crate::state_block::LocalDetails;
use crate::strutil::str_eq;
use crate::strutil::usize_to_dec;
use crate::template::closure::ClosureBindInput;
use crate::thir::PatBinding;
use crate::visitor::ident::name_set;
use crate::visitor::ident::rw_expr;
use crate::visitor::ident::RwView;
use vstd::string::StringExecFns;

verus! {

/// The shared per-component state under construction: the verbatim
/// state-construction block, the state struct's field texts, and the
/// callbacks to register, in slot order.
#[derive(Debug)]
pub struct State {
    pub init_block: String,
    pub fields_type: Vec<String>,
    pub fields_value: Vec<String>,
    pub callbacks: Vec<(String, String)>,
}

/// A generated node name: `<tag>_<n>`, `n` a per-tag counter local to the
/// owning scope.
#[derive(Debug)]
pub struct NodeName {
    pub tag: String,
    pub index: usize,
}

/// The flattened `<tag>_<n>` spelling of a generated node name.
pub open spec fn node_text(n: NodeName) -> Seq<char> {
    n.tag@ + "_"@ + crate::strutil::dec_digits(n.index as nat)
}

impl NodeName {
    /// The flattened `<tag>_<n>` spelling used in emitted code.
    pub fn render(&self) -> (r: String)
        ensures
            r@ == node_text(*self),
    {
        let mut out = self.tag.clone();
        out.append("_");
        out.append(usize_to_dec(self.index).as_str());
        proof {
            assert(out@ =~= node_text(*self));
        }
        out
    }
}

/// A copy of a node name, equal in view.
pub fn clone_node_name(n: &NodeName) -> (r: NodeName)
    ensures
        r == *n,
{
    NodeName { tag: n.tag.clone(), index: n.index }
}

/// The element kind a tag maps to: a small fixed set of tags get
/// specialized kinds, all others the generic element kind; text and
/// comment nodes are text kind.
#[derive(Clone, Copy, Debug, PartialEq, Eq, Structural)]
pub enum NodeKind {
    Input,
    Button,
    Generic,
    Text,
}

/// What a field of the generated component holds.
#[derive(Clone, Copy, Debug, PartialEq, Eq, Structural)]
pub enum FieldKind {
    Node(NodeKind),
    /// The collection of mounted loop units for a repeated section.
    LoopVec,
    /// The bookkeeping flag recording whether a loop updated.
    LoopFlag,
}

/// Where a mount appends a node.
#[derive(Debug)]
pub enum Target {
    /// The scope's mount target.
    Root,
    /// A named node of the same scope.
    Node(NodeName),
}

/// A copy of a target, equal in view.
pub fn clone_target(t: &Target) -> (r: Target)
    ensures
        r == *t,
{
    match t {
        Target::Root => Target::Root,
        Target::Node(n) => Target::Node(clone_node_name(n)),
    }
}

/// One generated instruction. Each variant belongs to one bucket.
#[derive(Debug)]
pub enum Instr {
    /// init: create an element node.
    CreateElement { node: NodeName, kind: NodeKind },
    /// init: create a text node holding literal text.
    CreateTextLiteral { node: NodeName, text: String },
    /// init: create a comment node holding literal text.
    CreateCommentLiteral { node: NodeName, text: String },
    /// init: create a text node formatted from a state field or prop.
    CreateTextFromIdent { node: NodeName, ident: Name, from_props: bool },
    /// init: create the empty anchor text node of a loop.
    CreateAnchor { node: NodeName },
    /// init: the collection holding one child unit per iteration.
    InitLoopVec { name: NodeName },
    /// init: the loop's updated flag.
    InitLoopFlag { name: NodeName },
    /// init: set an attribute once, from a literal.
    SetAttributeLiteral { node: NodeName, attr: String, value: String },
    /// mount, non-appending scopes only: resolve the parent of the mount
    /// target, so nodes can be inserted before the target.
    BindParent,
    /// mount: append a node to its parent (appending scopes).
    AppendChild { parent: Target, child: NodeName },
    /// mount: insert a node immediately before the mount target
    /// (non-appending scopes).
    InsertBeforeTarget { child: NodeName },
    /// mount: re-apply an attribute from a state field or prop.
    SetAttributeFromIdent { node: NodeName, attr: String, ident: Name, from_props: bool },
    /// mount: set an input's displayed value from state.
    BindInputInit { node: NodeName, line: String },
    /// mount: run the loop once, constructing and mounting one child unit
    /// per source element before the anchor.
    LoopMount { name: NodeName, pat: Name, iterable: Expr, anchor: NodeName },
    /// mount-once: attach a listener at a callback slot.
    AddListener { node: NodeName, event: String, slot: usize },
    /// update: re-set a text node's content from a state field or prop.
    SetTextFromIdent { node: NodeName, ident: Name, from_props: bool },
    /// update: re-sync an input's displayed value from state.
    BindInputUpdate { node: NodeName, line: String },
    /// update: gated by the dependency set, reconcile the loop's
    /// collection against the recomputed iterable, position by position.
    LoopReconcile { name: NodeName, deps: Vec<String>, pat: Name, iterable: Expr, anchor: NodeName },
    /// update, outermost appending scope only: clear the set of changed
    /// identifiers once all updates ran.
    ClearUpdatedIdents,
    /// drop: detach a listener.
    RemoveListener { node: NodeName, event: String, slot: usize },
    /// drop: remove a node inserted at the scope root.
    RemoveNode { node: NodeName },
}

/// One compilation unit's output.
#[derive(Debug)]
pub struct Dom {
    pub init: Vec<Instr>,
    pub mount: Vec<Instr>,
    pub mount_mounted: Vec<Instr>,
    pub update: Vec<Instr>,
    pub drop: Vec<Instr>,
    pub fields: Vec<(NodeName, FieldKind)>,
    pub sub_doms: Vec<(NodeName, Dom)>,
    pub props: Vec<(String, String)>,
    pub warnings: Vec<Diag>,
    pub tag_count: Vec<(String, usize)>,
    pub append_nodes: bool,
}

/// The counter the scope holds for a tag; zero when the tag is fresh.
pub open spec fn count_of(tag_count: Seq<(String, usize)>, tag: Seq<char>) -> nat
    decreases tag_count,
{
    if tag_count.len() == 0 {
        0
    } else if tag_count[0].0@ == tag {
        tag_count[0].1 as nat
    } else {
        count_of(tag_count.skip(1), tag)
    }
}

impl Dom {
    /// Well-formedness: each tag has one counter entry, every field name
    /// is numbered within its tag's counter starting at one, and no two
    /// fields share a name.
    pub open spec fn wf(&self) -> bool {
        &&& forall|i: int, j: int|
            0 <= i < j < self.tag_count@.len() ==> (#[trigger] self.tag_count@[i]).0@ != (
            #[trigger] self.tag_count@[j]).0@
        &&& forall|i: int|
            0 <= i < self.tag_count@.len() ==> (#[trigger] self.tag_count@[i]).1
                <= self.fields@.len()
        &&& forall|i: int|
            0 <= i < self.fields@.len() ==> 1 <= (#[trigger] self.fields@[i]).0.index <= count_of(
                self.tag_count@,
                self.fields@[i].0.tag@,
            )
        &&& forall|i: int, j: int|
            0 <= i < j < self.fields@.len() ==> !((#[trigger] self.fields@[i]).0.tag@ == (
            #[trigger] self.fields@[j]).0.tag@ && self.fields@[i].0.index
                == self.fields@[j].0.index)
    }

    /// An empty scope, appending by default.
    pub fn default(props: Vec<(String, String)>) -> (r: Dom)
        ensures
            r.wf(),
            r.init@.len() == 0,
            r.mount@.len() == 0,
            r.mount_mounted@.len() == 0,
            r.update@.len() == 0,
            r.drop@.len() == 0,
            r.fields@.len() == 0,
            r.sub_doms@.len() == 0,
            r.tag_count@.len() == 0,
            r.props@ == props@,
            r.append_nodes,
    {
        Dom {
            init: Vec::new(),
            mount: Vec::new(),
            mount_mounted: Vec::new(),
            update: Vec::new(),
            drop: Vec::new(),
            fields: Vec::new(),
            sub_doms: Vec::new(),
            props,
            warnings: Vec::new(),
            tag_count: Vec::new(),
            append_nodes: true,
        }
    }

    /// Allocates the next `<tag>_<n>` name and registers the field that
    /// holds it: counters are monotonic per tag and names are never
    /// reused.
    fn generate_node_name(&mut self, tag: &str, kind: FieldKind) -> (r: NodeName)
        requires
            old(self).wf(),
            old(self).fields@.len() < usize::MAX,
        ensures
            final(self).wf(),
            final(self).init@ == old(self).init@,
            final(self).mount@ == old(self).mount@,
            final(self).mount_mounted@ == old(self).mount_mounted@,
            final(self).update@ == old(self).update@,
            final(self).drop@ == old(self).drop@,
            final(self).sub_doms@ == old(self).sub_doms@,
            final(self).props@ == old(self).props@,
            final(self).warnings@ == old(self).warnings@,
            final(self).append_nodes == old(self).append_nodes,
            r.tag@ == tag@,
            r.index == count_of(final(self).tag_count@, tag@),
            count_of(final(self).tag_count@, tag@) == count_of(old(self).tag_count@, tag@) + 1,
            forall|t2: Seq<char>|
                t2 != tag@ ==> count_of(final(self).tag_count@, t2) == count_of(
                    old(self).tag_count@,
                    t2,
                ),
            final(self).fields@.len() == old(self).fields@.len() + 1,
            final(self).fields@.take(old(self).fields@.len() as int) == old(self).fields@,
            final(self).fields@.last().0.tag@ == tag@,
            final(self).fields@.last().1 == kind,
    {
        let ghost pre = *self;
        let mut at: Option<usize> = None;
        let mut i: usize = 0;
        while i < self.tag_count.len()
            invariant
                *self == pre,
                i <= self.tag_count@.len(),
                at is None ==> forall|j: int| 0 <= j < i ==> (#[trigger] self.tag_count@[j]).0@
                    != tag@,
                at matches Some(k) ==> k < i && self.tag_count@[k as int].0@ == tag@,
            decreases self.tag_count@.len() - i,
        {
            if at.is_none() && str_eq(self.tag_count[i].0.as_str(), tag) {
                at = Some(i);
            }
            i = i + 1;
        }
        match at {
            Some(k) => {
                let current = self.tag_count[k].1;
                let fresh = current + 1;
                let tag_string = self.tag_count[k].0.clone();
                let mut new_counts: Vec<(String, usize)> = Vec::new();
                let mut j: usize = 0;
                while j < self.tag_count.len()
                    invariant
                        *self == pre,
                        k < self.tag_count@.len(),
                        j <= self.tag_count@.len(),
                        new_counts@.len() == j,
                        fresh == self.tag_count@[k as int].1 + 1,
                        self.tag_count@[k as int].0@ == tag@,
                        tag_string@ == tag@,
                        forall|m: int| 0 <= m < j && m != k ==> #[trigger] new_counts@[m]
                            == self.tag_count@[m],
                        j > k ==> new_counts@[k as int].0@ == tag@ && new_counts@[k as int].1
                            == fresh,
                    decreases self.tag_count@.len() - j,
                {
                    if j == k {
                        new_counts.push((tag_string.clone(), fresh));
                    } else {
                        new_counts.push(
                            (self.tag_count[j].0.clone(), self.tag_count[j].1),
                        );
                    }
                    j = j + 1;
                }
                self.tag_count = new_counts;
                let name = NodeName { tag: tag_string.clone(), index: fresh };
                proof {
                    lemma_count_of_update(pre.tag_count@, self.tag_count@, k as int, tag@, fresh);
                    assert forall|m: int|
                        0 <= m < self.fields@.len() implies 1 <= (
                    #[trigger] self.fields@[m]).0.index <= count_of(
                        self.tag_count@,
                        self.fields@[m].0.tag@,
                    ) by {
                        lemma_count_of_update(
                            pre.tag_count@,
                            self.tag_count@,
                            k as int,
                            self.fields@[m].0.tag@,
                            fresh,
                        );
                        if self.fields@[m].0.tag@ == tag@ {
                            lemma_count_of_found(pre.tag_count@, k as int, tag@);
                        }
                    }
                }
                let ghost before_push = self.fields@;
                self.fields.push((clone_node_name(&name), kind));
                proof {
                    assert(self.fields@.take(before_push.len() as int) =~= before_push);
                    assert forall|m: int|
                        0 <= m < self.fields@.len() implies 1 <= (
                    #[trigger] self.fields@[m]).0.index <= count_of(
                        self.tag_count@,
                        self.fields@[m].0.tag@,
                    ) by {
                        if m < before_push.len() {
                            assert(self.fields@[m] == before_push[m]);
                        }
                    }
                    assert forall|m: int, n2: int|
                        0 <= m < n2 < self.fields@.len() implies !((
                    #[trigger] self.fields@[m]).0.tag@ == (#[trigger] self.fields@[n2]).0.tag@
                        && self.fields@[m].0.index == self.fields@[n2].0.index) by {
                        if n2 == self.fields@.len() - 1 {
                            if self.fields@[m].0.tag@ == tag@ {
                                assert(pre.fields@[m].0.index <= count_of(pre.tag_count@, tag@));
                                lemma_count_of_found(pre.tag_count@, k as int, tag@);
                            }
                        } else {
                            assert(self.fields@[m] == before_push[m]);
                            assert(self.fields@[n2] == before_push[n2]);
                        }
                    }
                }
                proof {
                    lemma_count_of_found(pre.tag_count@, k as int, tag@);
                    assert forall|t2: Seq<char>|
                        t2 != tag@ implies count_of(self.tag_count@, t2) == count_of(
                        pre.tag_count@,
                        t2,
                    ) by {
                        lemma_count_of_update(pre.tag_count@, self.tag_count@, k as int, t2, fresh);
                    }
                }
                name
            },
            None => {
                let ghost before_counts = self.tag_count@;
                let tag_string = String::from_str(tag);
                let name = NodeName { tag: tag_string.clone(), index: 1 };
                let entry = (tag_string, 1usize);
                self.tag_count.push(entry);
                proof {
                    lemma_count_of_append(before_counts, entry, tag@);
                    assert forall|m: int|
                        0 <= m < self.fields@.len() implies 1 <= (
                    #[trigger] self.fields@[m]).0.index <= count_of(
                        self.tag_count@,
                        self.fields@[m].0.tag@,
                    ) by {
                        lemma_count_of_append(
                            before_counts,
                            entry,
                            self.fields@[m].0.tag@,
                        );
                        if self.fields@[m].0.tag@ == tag@ {
                            lemma_count_of_missing(before_counts, tag@);
                        }
                    }
                }
                let ghost before_push = self.fields@;
                self.fields.push((clone_node_name(&name), kind));
                proof {
                    assert(self.fields@.take(before_push.len() as int) =~= before_push);
                    assert forall|m: int|
                        0 <= m < self.fields@.len() implies 1 <= (
                    #[trigger] self.fields@[m]).0.index <= count_of(
                        self.tag_count@,
                        self.fields@[m].0.tag@,
                    ) by {
                        if m < before_push.len() {
                            assert(self.fields@[m] == before_push[m]);
                        }
                    }
                    assert forall|m: int, n2: int|
                        0 <= m < n2 < self.fields@.len() implies !((
                    #[trigger] self.fields@[m]).0.tag@ == (#[trigger] self.fields@[n2]).0.tag@
                        && self.fields@[m].0.index == self.fields@[n2].0.index) by {
                        if n2 == self.fields@.len() - 1 {
                            if self.fields@[m].0.tag@ == tag@ {
                                assert(pre.fields@[m].0.index <= count_of(
                                    before_counts,
                                    tag@,
                                ));
                                lemma_count_of_missing(before_counts, tag@);
                            }
                        } else {
                            assert(self.fields@[m] == before_push[m]);
                            assert(self.fields@[n2] == before_push[n2]);
                        }
                    }
                }
                proof {
                    lemma_count_of_missing(before_counts, tag@);
                    assert forall|t2: Seq<char>|
                        t2 != tag@ implies count_of(self.tag_count@, t2) == count_of(
                        before_counts,
                        t2,
                    ) by {
                        lemma_count_of_append(before_counts, entry, t2);
                    }
                }
                name
            },
        }
    }
}

/// A fresh tag's counter is zero when no entry carries it.
proof fn lemma_count_of_missing(tag_count: Seq<(String, usize)>, tag: Seq<char>)
    requires
        forall|j: int| 0 <= j < tag_count.len() ==> (#[trigger] tag_count[j]).0@ != tag,
    ensures
        count_of(tag_count, tag) == 0,
    decreases tag_count,
{
    if tag_count.len() > 0 {
        lemma_count_of_missing(tag_count.skip(1), tag);
    }
}

/// The counter of a tag is the value stored at its unique entry.
proof fn lemma_count_of_found(tag_count: Seq<(String, usize)>, k: int, tag: Seq<char>)
    requires
        0 <= k < tag_count.len(),
        tag_count[k].0@ == tag,
        forall|i: int, j: int|
            0 <= i < j < tag_count.len() ==> (#[trigger] tag_count[i]).0@ != (
            #[trigger] tag_count[j]).0@,
    ensures
        count_of(tag_count, tag) == tag_count[k].1,
    decreases tag_count,
{
    if k == 0 {
    } else {
        assert(tag_count[0].0@ != tag);
        assert forall|i: int, j: int|
            0 <= i < j < tag_count.skip(1).len() implies (#[trigger] tag_count.skip(1)[i]).0@ != (
        #[trigger] tag_count.skip(1)[j]).0@ by {
            assert(tag_count.skip(1)[i] == tag_count[i + 1]);
            assert(tag_count.skip(1)[j] == tag_count[j + 1]);
        }
        assert(tag_count.skip(1)[k - 1] == tag_count[k]);
        lemma_count_of_found(tag_count.skip(1), k - 1, tag);
    }
}

/// Updating one entry changes only that tag's counter.
proof fn lemma_count_of_update(
    before: Seq<(String, usize)>,
    after: Seq<(String, usize)>,
    k: int,
    tag: Seq<char>,
    fresh: usize,
)
    requires
        0 <= k < before.len(),
        after.len() == before.len(),
        forall|m: int| 0 <= m < before.len() && m != k ==> #[trigger] after[m] == before[m],
        after[k].0@ == before[k].0@,
        after[k].1 == fresh,
    ensures
        count_of(after, after[k].0@) == if k == 0 || before[0].0@ != after[k].0@ {
            count_of(after, after[k].0@)
        } else {
            count_of(after, after[k].0@)
        },
        tag == before[k].0@ && (forall|i: int, j: int|
            0 <= i < j < before.len() ==> (#[trigger] before[i]).0@ != (
            #[trigger] before[j]).0@) ==> count_of(after, tag) == fresh,
        tag != before[k].0@ ==> count_of(after, tag) == count_of(before, tag),
    decreases before,
{
    if before.len() > 0 {
        if k == 0 {
            assert(after.skip(1) =~= before.skip(1));
        } else {
            assert(after[0] == before[0]);
            assert forall|m: int|
                0 <= m < before.skip(1).len() && m != k - 1 implies #[trigger] after.skip(1)[m]
                == before.skip(1)[m] by {
                assert(after.skip(1)[m] == after[m + 1]);
                assert(before.skip(1)[m] == before[m + 1]);
            }
            assert(after.skip(1)[k - 1] == after[k]);
            assert(before.skip(1)[k - 1] == before[k]);
            if tag == before[k].0@ {
                if forall|i: int, j: int|
                    0 <= i < j < before.len() ==> (#[trigger] before[i]).0@ != (
                    #[trigger] before[j]).0@ {
                    assert(before[0].0@ != tag);
                    assert forall|i: int, j: int|
                        0 <= i < j < before.skip(1).len() implies (
                    #[trigger] before.skip(1)[i]).0@ != (#[trigger] before.skip(1)[j]).0@ by {
                        assert(before.skip(1)[i] == before[i + 1]);
                        assert(before.skip(1)[j] == before[j + 1]);
                    }
                    lemma_count_of_update(before.skip(1), after.skip(1), k - 1, tag, fresh);
                }
            } else {
                lemma_count_of_update(before.skip(1), after.skip(1), k - 1, tag, fresh);
            }
        }
    }
}

/// Appending a fresh tag entry leaves other tags' counters unchanged.
proof fn lemma_count_of_append(
    before: Seq<(String, usize)>,
    entry: (String, usize),
    tag: Seq<char>,
)
    ensures
        tag == entry.0@ && (forall|j: int| 0 <= j < before.len() ==> (#[trigger] before[j]).0@
            != entry.0@) ==> count_of(before.push(entry), tag) == entry.1,
        tag != entry.0@ ==> count_of(before.push(entry), tag) == count_of(before, tag),
    decreases before,
{
    reveal_with_fuel(count_of, 2);
    if before.len() == 0 {
        assert(before.push(entry)[0] == entry);
        assert(before.push(entry).skip(1) =~= Seq::<(String, usize)>::empty());
        assert(count_of(Seq::<(String, usize)>::empty(), tag) == 0);
    } else {
        assert(before.push(entry)[0] == before[0]);
        assert(before.push(entry).skip(1) =~= before.skip(1).push(entry));
        lemma_count_of_append(before.skip(1), entry, tag);
    }
}


/// One instruction bucket extends another: the old statements stay, in
/// order, and new ones only follow them.
pub open spec fn extends(pre: Seq<Instr>, post: Seq<Instr>) -> bool {
    post.len() >= pre.len() && post.take(pre.len() as int) == pre
}

pub proof fn lemma_extends_trans(a: Seq<Instr>, b: Seq<Instr>, c: Seq<Instr>)
    requires
        extends(a, b),
        extends(b, c),
    ensures
        extends(a, c),
{
    assert(c.take(a.len() as int) =~= b.take(a.len() as int));
}

pub proof fn lemma_extends_push(a: Seq<Instr>, x: Instr)
    ensures
        extends(a, a.push(x)),
{
    assert(a.push(x).take(a.len() as int) =~= a);
}

pub proof fn lemma_extends_refl(a: Seq<Instr>)
    ensures
        extends(a, a),
{
    assert(a.take(a.len() as int) =~= a);
}

/// The node fields, counters, child scopes, props and mode of two scopes
/// agree; used by steps that only append instructions.
pub open spec fn same_structure(pre: Dom, post: Dom) -> bool {
    &&& post.fields@ == pre.fields@
    &&& post.tag_count@ == pre.tag_count@
    &&& post.sub_doms@ == pre.sub_doms@
    &&& post.props@ == pre.props@
    &&& post.append_nodes == pre.append_nodes
}

/// The shared state is only appended to: earlier callback slots keep
/// their meaning.
pub open spec fn state_extends(pre: State, post: State) -> bool {
    &&& post.init_block@ == pre.init_block@
    &&& post.fields_type@ == pre.fields_type@
    &&& post.fields_value@ == pre.fields_value@
    &&& post.callbacks@.len() >= pre.callbacks@.len()
    &&& post.callbacks@.take(pre.callbacks@.len() as int) == pre.callbacks@
}

pub proof fn lemma_state_extends_trans(a: State, b: State, c: State)
    requires
        state_extends(a, b),
        state_extends(b, c),
    ensures
        state_extends(a, c),
{
    assert(c.callbacks@.take(a.callbacks@.len() as int) =~= b.callbacks@.take(
        a.callbacks@.len() as int,
    ));
}

pub proof fn lemma_state_extends_refl(a: State)
    ensures
        state_extends(a, a),
{
    assert(a.callbacks@.take(a.callbacks@.len() as int) =~= a.callbacks@);
}

impl Dom {
    /// Emits the mount line for a freshly created node: scopes in append
    /// mode append to the parent; at a non-appending scope's root the
    /// node is inserted immediately before the mount target and its own
    /// removal is scheduled on teardown.
    fn append_node(&mut self, target: &Target, node: &NodeName)
        ensures
            same_structure(*old(self), *final(self)),
            final(self).init@ == old(self).init@,
            final(self).mount_mounted@ == old(self).mount_mounted@,
            final(self).update@ == old(self).update@,
            final(self).warnings@ == old(self).warnings@,
            target is Root ==> final(self).mount@ == old(self).mount@.push(
                if old(self).append_nodes {
                    Instr::AppendChild { parent: Target::Root, child: *node }
                } else {
                    Instr::InsertBeforeTarget { child: *node }
                },
            ) && final(self).drop@ == old(self).drop@.push(Instr::RemoveNode { node: *node }),
            target matches Target::Node(p) ==> final(self).mount@ == old(self).mount@.push(
                Instr::AppendChild { parent: Target::Node(*p), child: *node },
            ) && final(self).drop@ == old(self).drop@,
    {
        match target {
            Target::Root => {
                if self.append_nodes {
                    self.mount.push(
                        Instr::AppendChild { parent: Target::Root, child: clone_node_name(node) },
                    );
                } else {
                    self.mount.push(Instr::InsertBeforeTarget { child: clone_node_name(node) });
                }
                self.drop.push(Instr::RemoveNode { node: clone_node_name(node) });
            },
            Target::Node(p) => {
                self.mount.push(
                    Instr::AppendChild {
                        parent: Target::Node(clone_node_name(p)),
                        child: clone_node_name(node),
                    },
                );
            },
        }
    }

    /// Creates an element node: the tag picks the element kind, an init
    /// line creates it, a field holds it, and a mount line places it.
    fn create_node(&mut self, target: &Target, tag: &str) -> (r: NodeName)
        requires
            old(self).wf(),
            old(self).fields@.len() < usize::MAX,
        ensures
            final(self).wf(),
            final(self).props@ == old(self).props@,
            final(self).append_nodes == old(self).append_nodes,
            final(self).sub_doms@ == old(self).sub_doms@,
            final(self).warnings@ == old(self).warnings@,
            extends(old(self).init@, final(self).init@),
            extends(old(self).mount@, final(self).mount@),
            extends(old(self).mount_mounted@, final(self).mount_mounted@),
            extends(old(self).update@, final(self).update@),
            extends(old(self).drop@, final(self).drop@),
            final(self).mount_mounted@ == old(self).mount_mounted@,
            final(self).update@ == old(self).update@,
            final(self).fields@.len() == old(self).fields@.len() + 1,
            r.tag@ == tag@,
            r.index == count_of(old(self).tag_count@, tag@) + 1,
            count_of(final(self).tag_count@, tag@) == count_of(old(self).tag_count@, tag@) + 1,
            forall|t2: Seq<char>|
                t2 != tag@ ==> count_of(final(self).tag_count@, t2) == count_of(
                    old(self).tag_count@,
                    t2,
                ),
            target is Root ==> final(self).drop@.len() == old(self).drop@.len() + 1
                && final(self).drop@.last() == (Instr::RemoveNode { node: r }),
            target is Node ==> final(self).drop@ == old(self).drop@,
            final(self).mount@.len() == old(self).mount@.len() + 1,
            final(self).mount@.last() matches Instr::AppendChild { parent, child } ==> child == r,
            final(self).init@.len() == old(self).init@.len() + 1,
            final(self).init@.last() matches Instr::CreateElement { node, kind } && node == r
                && kind == (if tag@ == "input"@ {
                NodeKind::Input
            } else if tag@ == "button"@ {
                NodeKind::Button
            } else {
                NodeKind::Generic
            }),
            target is Root && old(self).append_nodes ==> final(self).mount@.last() == (
            Instr::AppendChild { parent: Target::Root, child: r }),
            target is Root && !old(self).append_nodes ==> final(self).mount@.last() == (
            Instr::InsertBeforeTarget { child: r }),
            target matches Target::Node(p) ==> final(self).mount@.last() == (Instr::AppendChild {
                parent: Target::Node(*p),
                child: r,
            }),
    {
        let kind = if str_eq(tag, "input") {
            NodeKind::Input
        } else if str_eq(tag, "button") {
            NodeKind::Button
        } else {
            NodeKind::Generic
        };
        let name = self.generate_node_name(tag, FieldKind::Node(kind));
        let ghost mid = *self;
        self.init.push(Instr::CreateElement { node: clone_node_name(&name), kind });
        self.append_node(target, &name);
        proof {
            lemma_extends_push(old(self).init@, self.init@.last());
            assert(extends(old(self).init@, self.init@));
            lemma_extends_refl(old(self).mount@);
            lemma_extends_push(old(self).mount@, self.mount@.last());
            assert(extends(old(self).mount@, self.mount@));
            lemma_extends_refl(old(self).mount_mounted@);
            lemma_extends_refl(old(self).update@);
            if self.drop@.len() > old(self).drop@.len() {
                lemma_extends_push(old(self).drop@, self.drop@.last());
                assert(extends(old(self).drop@, self.drop@));
            } else {
                lemma_extends_refl(old(self).drop@);
            }
        }
        name
    }

    /// Creates the stable, never-removed empty text node that anchors a
    /// loop's insertions.
    fn create_empty_node(&mut self, target: &Target) -> (r: NodeName)
        requires
            old(self).wf(),
            old(self).fields@.len() < usize::MAX,
        ensures
            final(self).fields@.len() == old(self).fields@.len() + 1,
            final(self).mount@.len() == old(self).mount@.len() + 1,
            r.tag@ == "empty"@,
            r.index == count_of(old(self).tag_count@, "empty"@) + 1,
            count_of(final(self).tag_count@, "empty"@) == count_of(
                old(self).tag_count@,
                "empty"@,
            ) + 1,
            forall|t2: Seq<char>|
                t2 != "empty"@ ==> count_of(final(self).tag_count@, t2) == count_of(
                    old(self).tag_count@,
                    t2,
                ),
            final(self).mount_mounted@ == old(self).mount_mounted@,
            final(self).update@ == old(self).update@,
            final(self).init@.len() == old(self).init@.len() + 1,
            final(self).init@.last() == (Instr::CreateAnchor { node: r }),
            target is Root && old(self).append_nodes ==> final(self).mount@.last() == (
            Instr::AppendChild { parent: Target::Root, child: r }),
            target is Root && !old(self).append_nodes ==> final(self).mount@.last() == (
            Instr::InsertBeforeTarget { child: r }),
            target matches Target::Node(p) ==> final(self).mount@.last() == (Instr::AppendChild {
                parent: Target::Node(*p),
                child: r,
            }),
            target is Root ==> final(self).drop@.len() == old(self).drop@.len() + 1
                && final(self).drop@.last() == (Instr::RemoveNode { node: r }),
            target is Node ==> final(self).drop@ == old(self).drop@,
            final(self).wf(),
            final(self).props@ == old(self).props@,
            final(self).append_nodes == old(self).append_nodes,
            final(self).sub_doms@ == old(self).sub_doms@,
            final(self).warnings@ == old(self).warnings@,
            extends(old(self).init@, final(self).init@),
            extends(old(self).mount@, final(self).mount@),
            extends(old(self).mount_mounted@, final(self).mount_mounted@),
            extends(old(self).update@, final(self).update@),
            extends(old(self).drop@, final(self).drop@),
    {
        let name = self.generate_node_name("empty", FieldKind::Node(NodeKind::Text));
        let ghost mid = *self;
        self.init.push(Instr::CreateAnchor { node: clone_node_name(&name) });
        self.append_node(target, &name);
        proof {
            lemma_extends_push(old(self).init@, self.init@.last());
            assert(extends(old(self).init@, self.init@));
            lemma_extends_refl(old(self).mount@);
            lemma_extends_push(old(self).mount@, self.mount@.last());
            assert(extends(old(self).mount@, self.mount@));
            lemma_extends_refl(old(self).mount_mounted@);
            lemma_extends_refl(old(self).update@);
            if self.drop@.len() > old(self).drop@.len() {
                lemma_extends_push(old(self).drop@, self.drop@.last());
                assert(extends(old(self).drop@, self.drop@));
            } else {
                lemma_extends_refl(old(self).drop@);
            }
        }
        name
    }

    /// Creates a text or comment node from its init instruction, places
    /// it, and hands its name back.
    fn create_text_node(&mut self, target: &Target, init: Instr, name: NodeName) -> (r: NodeName)
        ensures
            same_structure(*old(self), *final(self)),
            final(self).init@ == old(self).init@.push(init),
            extends(old(self).mount@, final(self).mount@),
            extends(old(self).drop@, final(self).drop@),
            final(self).mount_mounted@ == old(self).mount_mounted@,
            final(self).update@ == old(self).update@,
            final(self).warnings@ == old(self).warnings@,
            final(self).mount@.len() == old(self).mount@.len() + 1,
            target is Root && old(self).append_nodes ==> final(self).mount@.last() == (
            Instr::AppendChild { parent: Target::Root, child: name }),
            target is Root && !old(self).append_nodes ==> final(self).mount@.last() == (
            Instr::InsertBeforeTarget { child: name }),
            target matches Target::Node(p) ==> final(self).mount@.last() == (Instr::AppendChild {
                parent: Target::Node(*p),
                child: name,
            }),
            target is Root ==> final(self).drop@.len() == old(self).drop@.len() + 1
                && final(self).drop@.last() == (Instr::RemoveNode { node: name }),
            target is Node ==> final(self).drop@ == old(self).drop@,
            r == name,
    {
        self.init.push(init);
        self.append_node(target, &name);
        proof {
            lemma_extends_refl(old(self).mount@);
            lemma_extends_push(old(self).mount@, self.mount@.last());
            assert(extends(old(self).mount@, self.mount@));
            if self.drop@.len() > old(self).drop@.len() {
                lemma_extends_push(old(self).drop@, self.drop@.last());
                assert(extends(old(self).drop@, self.drop@));
            } else {
                lemma_extends_refl(old(self).drop@);
            }
        }
        name
    }

    /// Attaches a listener at a callback slot in the mount-once phase and
    /// schedules the matching detach on teardown.
    fn add_event_listener(&mut self, element_name: &NodeName, event_name: &str, slot: usize)
        ensures
            same_structure(*old(self), *final(self)),
            final(self).init@ == old(self).init@,
            final(self).mount@ == old(self).mount@,
            final(self).update@ == old(self).update@,
            final(self).warnings@ == old(self).warnings@,
            final(self).mount_mounted@.len() == old(self).mount_mounted@.len() + 1,
            final(self).mount_mounted@.last() matches Instr::AddListener { node, event, slot: s }
                && node == *element_name && event@ == event_name@ && s == slot,
            extends(old(self).mount_mounted@, final(self).mount_mounted@),
            final(self).drop@.len() == old(self).drop@.len() + 1,
            final(self).drop@.last() matches Instr::RemoveListener { node, event, slot: s } && node
                == *element_name && event@ == event_name@ && s == slot,
            extends(old(self).drop@, final(self).drop@),
    {
        self.mount_mounted.push(
            Instr::AddListener {
                node: clone_node_name(element_name),
                event: String::from_str(event_name),
                slot,
            },
        );
        self.drop.push(
            Instr::RemoveListener {
                node: clone_node_name(element_name),
                event: String::from_str(event_name),
                slot,
            },
        );
        proof {
            lemma_extends_push(old(self).mount_mounted@, self.mount_mounted@.last());
            lemma_extends_push(old(self).drop@, self.drop@.last());
        }
    }
}


/// Nothing the range gained is the closing clear: the update statements
/// a walk appends re-set nodes, re-sync inputs or reconcile loops, and
/// only the outermost appending scope closes with the clear.
pub open spec fn no_clear_added(pre: Seq<Instr>, post: Seq<Instr>) -> bool {
    forall|j: int| pre.len() <= j < post.len() ==> !((#[trigger] post[j]) is ClearUpdatedIdents)
}

proof fn lemma_no_clear_trans(a: Seq<Instr>, b: Seq<Instr>, c: Seq<Instr>)
    requires
        extends(a, b),
        extends(b, c),
        no_clear_added(a, b),
        no_clear_added(b, c),
    ensures
        no_clear_added(a, c),
{
    assert forall|j: int| a.len() <= j < c.len() implies !((#[trigger] c[j])
        is ClearUpdatedIdents) by {
        if j < b.len() {
            assert(c.take(b.len() as int)[j] == c[j]);
        }
    }
}

/// A snapshot of everything attribute compilation appends to: the five
/// instruction buckets and the shared state's callback list.
#[verifier::ext_equal]
pub ghost struct AttrSink {
    pub init: Seq<Instr>,
    pub mount: Seq<Instr>,
    pub once: Seq<Instr>,
    pub update: Seq<Instr>,
    pub drop: Seq<Instr>,
    pub cbs: Seq<(String, String)>,
}

pub open spec fn sink_of(d: Dom, s: State) -> AttrSink {
    AttrSink {
        init: d.init@,
        mount: d.mount@,
        once: d.mount_mounted@,
        update: d.update@,
        drop: d.drop@,
        cbs: s.callbacks@,
    }
}

/// The bucket grew by exactly one statement.
pub open spec fn appended(pre: Seq<Instr>, post: Seq<Instr>) -> bool {
    post.len() == pre.len() + 1 && post.take(pre.len() as int) == pre
}

pub open spec fn cbs_appended(pre: Seq<(String, String)>, post: Seq<(String, String)>) -> bool {
    post.len() == pre.len() + 1 && post.take(pre.len() as int) == pre
}

/// Whether one attribute compiles in this scope: not an unimplemented
/// `bind:` form, and a bare-identifier value resolves — to an event
/// handler under `on:`, to the bound state field for `bind:value` on an
/// input-like node, and to a prop or state field otherwise.
pub open spec fn attr_ok(
    a: Attribute,
    tag: Seq<char>,
    details: LocalDetails,
    props: Seq<(String, String)>,
) -> bool {
    match a.expr {
        AttrExprType::Ident(n) => {
            if tag == "input"@ && a.namespace@ == "bind"@ && a.name@ == "value"@ {
                states_contain(details.states@, n.text@)
            } else if a.namespace@ == "on"@ {
                crate::state_block::events_contain(details.events_closures@, n.text@)
            } else if a.namespace@ == "bind"@ {
                false
            } else {
                props_has(props, n.text@) || states_contain(details.states@, n.text@)
            }
        },
        _ => true,
    }
}

/// What compiling one attribute appends, exactly, by its form: a literal
/// value is set once in init; an expression block only warns; `on:`
/// attaches the handler's registration slot in mount-once and detaches it
/// in drop; `bind:value` on an input-like node contributes the two-way
/// binding's four pieces and registers its change handler at the next
/// free slot; any other identifier value re-applies on every mount,
/// reading from the props when they carry it and from state otherwise.
pub open spec fn attr_emission(
    a: Attribute,
    node: NodeName,
    details: LocalDetails,
    props: Seq<(String, String)>,
    b0: AttrSink,
    b1: AttrSink,
) -> bool {
    match a.expr {
        AttrExprType::String(v) => {
            &&& appended(b0.init, b1.init)
            &&& b1.init.last() matches Instr::SetAttributeLiteral { node: n2, attr, value }
                && n2 == node && attr@ == a.name@ && value@ == v@
            &&& b1.mount == b0.mount
            &&& b1.once == b0.once
            &&& b1.update == b0.update
            &&& b1.drop == b0.drop
            &&& b1.cbs == b0.cbs
        },
        AttrExprType::Block(_) => {
            &&& b1.init == b0.init
            &&& b1.mount == b0.mount
            &&& b1.once == b0.once
            &&& b1.update == b0.update
            &&& b1.drop == b0.drop
            &&& b1.cbs == b0.cbs
        },
        AttrExprType::Ident(n) => {
            if node.tag@ == "input"@ && a.namespace@ == "bind"@ && a.name@ == "value"@ {
                exists|k: int|
                    {
                        &&& 0 <= k < details.states@.len()
                        &&& (#[trigger] details.states@[k]).ident.text@ == n.text@
                        &&& forall|j: int|
                            0 <= j < k ==> (#[trigger] details.states@[j]).ident.text@ != n.text@
                        &&& {
                            let numeric = crate::template::closure::spec_is_numeric(
                                details.states@[k].ty@,
                            );
                            let handler = node_text(node) + "_bind_value"@;
                            &&& appended(b0.once, b1.once)
                            &&& b1.once.last() matches Instr::AddListener {
                                node: n2,
                                event,
                                slot,
                            } && n2 == node && event@ == "change"@ && slot == b0.cbs.len()
                            &&& appended(b0.drop, b1.drop)
                            &&& b1.drop.last() matches Instr::RemoveListener {
                                node: n3,
                                event: e3,
                                slot: s3,
                            } && n3 == node && e3@ == "change"@ && s3 == b0.cbs.len()
                            &&& appended(b0.update, b1.update)
                            &&& b1.update.last() matches Instr::BindInputUpdate {
                                node: n4,
                                line,
                            } && n4 == node && line@ == crate::template::closure::bind_update_line(
                                node_text(node),
                                n.text@,
                                numeric,
                            )
                            &&& appended(b0.init, b1.init)
                            &&& b1.init.last() matches Instr::BindInputInit { node: n5, line: l5 }
                                && n5 == node && l5@ == crate::template::closure::bind_init_line(
                                node_text(node),
                                n.text@,
                                numeric,
                            )
                            &&& cbs_appended(b0.cbs, b1.cbs)
                            &&& b1.cbs.last().0@ == handler
                            &&& b1.cbs.last().1@ == crate::template::closure::bind_handler_text(
                                handler,
                                details.states@[k].ident.text@,
                                if numeric {
                                    Some(details.states@[k].ty@)
                                } else {
                                    None
                                },
                            )
                            &&& b1.mount == b0.mount
                        }
                    }
            } else if a.namespace@ == "on"@ {
                exists|slot: int|
                    {
                        &&& 0 <= slot < details.events_closures@.len()
                        &&& (#[trigger] details.events_closures@[slot]).ident.text@ == n.text@
                        &&& forall|j: int|
                            0 <= j < slot ==> (#[trigger] details.events_closures@[j]).ident.text@
                                != n.text@
                        &&& appended(b0.once, b1.once)
                        &&& b1.once.last() matches Instr::AddListener { node: n2, event, slot: s2 }
                            && n2 == node && event@ == a.name@ && s2 == slot
                        &&& appended(b0.drop, b1.drop)
                        &&& b1.drop.last() matches Instr::RemoveListener {
                            node: n3,
                            event: e3,
                            slot: s3,
                        } && n3 == node && e3@ == a.name@ && s3 == slot
                        &&& b1.init == b0.init
                        &&& b1.mount == b0.mount
                        &&& b1.update == b0.update
                        &&& b1.cbs == b0.cbs
                    }
            } else if a.namespace@ == "bind"@ {
                false
            } else {
                &&& appended(b0.mount, b1.mount)
                &&& b1.mount.last() matches Instr::SetAttributeFromIdent {
                    node: n2,
                    attr,
                    ident,
                    from_props,
                } && n2 == node && attr@ == a.name@ && ident == n && from_props == props_has(
                    props,
                    n.text@,
                )
                &&& b1.init == b0.init
                &&& b1.once == b0.once
                &&& b1.update == b0.update
                &&& b1.drop == b0.drop
                &&& b1.cbs == b0.cbs
            }
        },
    }
}

/// What compiling an attribute list appends: each attribute's emission in
/// order, threaded through intermediate snapshots.
pub open spec fn attrs_emitted(
    attrs: Seq<Attribute>,
    node: NodeName,
    details: LocalDetails,
    props: Seq<(String, String)>,
    b0: AttrSink,
    b1: AttrSink,
) -> bool
    decreases attrs,
{
    if attrs.len() == 0 {
        b1 == b0
    } else {
        exists|bm: AttrSink|
            #[trigger] attr_emission(attrs[0], node, details, props, b0, bm) && attrs_emitted(
                attrs.skip(1),
                node,
                details,
                props,
                bm,
                b1,
            )
    }
}

proof fn lemma_attrs_emitted_snoc(
    attrs: Seq<Attribute>,
    x: Attribute,
    node: NodeName,
    details: LocalDetails,
    props: Seq<(String, String)>,
    b0: AttrSink,
    bm: AttrSink,
    b1: AttrSink,
)
    requires
        attrs_emitted(attrs, node, details, props, b0, bm),
        attr_emission(x, node, details, props, bm, b1),
    ensures
        attrs_emitted(attrs.push(x), node, details, props, b0, b1),
    decreases attrs,
{
    if attrs.len() == 0 {
        assert(bm == b0);
        assert(attrs.push(x)[0] == x);
        assert(attrs.push(x).skip(1) =~= Seq::<Attribute>::empty());
        assert(attr_emission(x, node, details, props, b0, b1));
        assert(attrs_emitted(attrs.push(x).skip(1), node, details, props, b1, b1));
    } else {
        let bh = choose|bh: AttrSink|
            #[trigger] attr_emission(attrs[0], node, details, props, b0, bh) && attrs_emitted(
                attrs.skip(1),
                node,
                details,
                props,
                bh,
                bm,
            );
        lemma_attrs_emitted_snoc(attrs.skip(1), x, node, details, props, bh, bm, b1);
        assert(attrs.push(x)[0] == attrs[0]);
        assert(attrs.push(x).skip(1) =~= attrs.skip(1).push(x));
    }
}

/// A snapshot of everything element compilation appends to or numbers:
/// the five instruction buckets, the shared callback list, and the
/// scope's per-tag counters, with the scope's placement mode.
#[verifier::ext_equal]
pub ghost struct ElSink {
    pub init: Seq<Instr>,
    pub mount: Seq<Instr>,
    pub once: Seq<Instr>,
    pub update: Seq<Instr>,
    pub drop: Seq<Instr>,
    pub cbs: Seq<(String, String)>,
    pub counts: Seq<(String, usize)>,
    pub append: bool,
}

pub open spec fn el_sink_of(d: Dom, s: State) -> ElSink {
    ElSink {
        init: d.init@,
        mount: d.mount@,
        once: d.mount_mounted@,
        update: d.update@,
        drop: d.drop@,
        cbs: s.callbacks@,
        counts: d.tag_count@,
        append: d.append_nodes,
    }
}

/// The snapshot a scope's element walk starts from: empty buckets and
/// counters over the callbacks registered so far, except that a
/// non-appending scope has already scheduled its parent resolution.
pub open spec fn scope_start(append: bool, cbs: Seq<(String, String)>) -> ElSink {
    ElSink {
        init: Seq::<Instr>::empty(),
        mount: if append {
            Seq::<Instr>::empty()
        } else {
            seq![Instr::BindParent]
        },
        once: Seq::<Instr>::empty(),
        update: Seq::<Instr>::empty(),
        drop: Seq::<Instr>::empty(),
        cbs: cbs,
        counts: Seq::<(String, usize)>::empty(),
        append: append,
    }
}

/// The attribute-level view of an element snapshot.
pub open spec fn attr_part(b: ElSink) -> AttrSink {
    AttrSink {
        init: b.init,
        mount: b.mount,
        once: b.once,
        update: b.update,
        drop: b.drop,
        cbs: b.cbs,
    }
}

/// The node is the next one numbered under its tag in this snapshot.
pub open spec fn fresh_at(b: ElSink, tag: Seq<char>, n: NodeName) -> bool {
    n.tag@ == tag && n.index == count_of(b.counts, tag) + 1
}

/// Exactly one tag's counter advanced between the snapshots.
pub open spec fn bumped(b0: ElSink, b1: ElSink, tag: Seq<char>) -> bool {
    &&& count_of(b1.counts, tag) == count_of(b0.counts, tag) + 1
    &&& forall|t2: Seq<char>| t2 != tag ==> count_of(b1.counts, t2) == count_of(b0.counts, t2)
}

/// The callback list only grew: earlier slots keep their meaning.
pub open spec fn cbs_extends(pre: Seq<(String, String)>, post: Seq<(String, String)>) -> bool {
    post.len() >= pre.len() && forall|j: int| 0 <= j < pre.len() ==> post[j] == pre[j]
}

/// How a created node is placed and torn down: under a parent node it is
/// appended there and the parent's own removal reclaims it; at the scope
/// root an appending scope appends it to the mount target, a
/// non-appending one inserts it before the target, and either way its
/// removal is scheduled on teardown.
pub open spec fn placed(
    parent: Target,
    append: bool,
    node: NodeName,
    m0: Seq<Instr>,
    m1: Seq<Instr>,
    d0: Seq<Instr>,
    d1: Seq<Instr>,
) -> bool {
    &&& appended(m0, m1)
    &&& match parent {
        Target::Root => {
            &&& append ==> m1.last() == (Instr::AppendChild { parent: Target::Root, child: node })
            &&& !append ==> m1.last() == (Instr::InsertBeforeTarget { child: node })
            &&& appended(d0, d1)
            &&& d1.last() == (Instr::RemoveNode { node })
        },
        Target::Node(p) => {
            &&& m1.last() == (Instr::AppendChild { parent: Target::Node(p), child: node })
            &&& d1 == d0
        },
    }
}

/// The element kind a tag compiles to.
pub open spec fn spec_kind(tag: Seq<char>) -> NodeKind {
    if tag == "input"@ {
        NodeKind::Input
    } else if tag == "button"@ {
        NodeKind::Button
    } else {
        NodeKind::Generic
    }
}

/// The rewrite of a loop's iterable against the declared state fields,
/// as the loop's emitted instructions carry it.
pub open spec fn loop_rw(iterable: Expr, details: LocalDetails) -> (crate::expr::ExprV, RwView) {
    rw_expr(
        view_expr(iterable),
        RwView {
            names: Set::<Seq<char>>::empty(),
            reads: Set::<Seq<char>>::empty(),
            muts: Set::<Seq<char>>::empty(),
            locals: Set::<Seq<char>>::empty(),
            errs: 0,
        },
        crate::state_block::states_name_set(details.states@),
        "self.state"@,
        false,
    )
}

/// What compiling one repeated section appends, exactly: the collection
/// and flag fields and the anchor in init, the anchor's placement and the
/// initial construction pass in mount, the dependency-gated reconcile in
/// update, and on a root target the anchor's removal in drop. The
/// instructions share one loop name and one anchor; both carry the
/// pattern and the rewritten iterable, and the reconcile's dependency set
/// is exactly what the iterable's rewrite read or wrote.
pub open spec fn for_loop_emission(
    pn: Name,
    iterable: Expr,
    parent: Target,
    details: LocalDetails,
    b0: ElSink,
    b1: ElSink,
) -> bool {
    &&& b1.init.len() == b0.init.len() + 3
    &&& b1.init.take(b0.init.len() as int) == b0.init
    &&& b1.init[b0.init.len() as int] matches Instr::InitLoopVec { name } && fresh_at(
        b0,
        "for_loop"@,
        name,
    ) && (b1.init[b0.init.len() as int + 1] matches Instr::InitLoopFlag { name: n2 } && n2 == name) && (
    b1.init[b0.init.len() as int + 2] matches Instr::CreateAnchor { node: anchor } && anchor.tag@
        == "empty"@ && anchor.index == count_of(b0.counts, "empty"@) + 1 && {
        &&& b1.mount.len() == b0.mount.len() + 2
        &&& b1.mount.take(b0.mount.len() as int) == b0.mount
        &&& match parent {
            Target::Root => {
                &&& b0.append ==> b1.mount[b0.mount.len() as int] == (Instr::AppendChild {
                    parent: Target::Root,
                    child: anchor,
                })
                &&& !b0.append ==> b1.mount[b0.mount.len() as int] == (Instr::InsertBeforeTarget {
                    child: anchor,
                })
                &&& appended(b0.drop, b1.drop)
                &&& b1.drop.last() == (Instr::RemoveNode { node: anchor })
            },
            Target::Node(p) => {
                &&& b1.mount[b0.mount.len() as int] == (Instr::AppendChild {
                    parent: Target::Node(p),
                    child: anchor,
                })
                &&& b1.drop == b0.drop
            },
        }
        &&& b1.mount.last() matches Instr::LoopMount {
            name: n5,
            pat: p5,
            iterable: iv5,
            anchor: a5,
        } && n5 == name && p5 == pn && a5 == anchor && view_expr(iv5) == loop_rw(
            iterable,
            details,
        ).0
        &&& appended(b0.update, b1.update)
        &&& b1.update.last() matches Instr::LoopReconcile {
            name: n6,
            deps,
            pat: p6,
            iterable: iv6,
            anchor: a6,
        } && n6 == name && p6 == pn && a6 == anchor && view_expr(iv6) == loop_rw(
            iterable,
            details,
        ).0 && name_set(deps@) == loop_rw(iterable, details).1.reads.union(
            loop_rw(iterable, details).1.muts,
        )
    })
    &&& b1.once == b0.once
    &&& cbs_extends(b0.cbs, b1.cbs)
    &&& count_of(b1.counts, "for_loop"@) == count_of(b0.counts, "for_loop"@) + 1
    &&& count_of(b1.counts, "empty"@) == count_of(b0.counts, "empty"@) + 1
    &&& forall|t2: Seq<char>|
        t2 != "for_loop"@ && t2 != "empty"@ ==> count_of(b1.counts, t2) == count_of(b0.counts, t2)
    &&& b1.append == b0.append
}

/// The matching handle for the intermediate snapshots that thread an
/// emission chain; holds of every snapshot.
pub open spec fn sink_snapshot(b: ElSink) -> bool {
    true
}

/// What compiling one element appends, exactly, by its form: a tag
/// creates and places a freshly numbered node, compiles its attributes
/// against it and its children under it; text and comments become one
/// freshly numbered literal node, created and placed; a bare-identifier
/// interpolation becomes a text node created from the identifier's value
/// and re-set from it on every update, reading from the props exactly
/// when they carry the identifier; a repeated section with an identifier
/// pattern contributes its bookkeeping per `for_loop_emission`, and with
/// any other pattern is skipped whole; every other form appends nothing.
pub open spec fn el_emission(
    e: Element,
    parent: Target,
    details: LocalDetails,
    props: Seq<(String, String)>,
    b0: ElSink,
    b1: ElSink,
) -> bool
    decreases e, 2nat,
{
    match e {
        Element::Classic(c) => exists|node: NodeName, bm1: ElSink, bm2: ElSink|
            {
                &&& #[trigger] sink_snapshot(bm1)
                &&& #[trigger] sink_snapshot(bm2)
                &&& #[trigger] fresh_at(b0, c.name.text@, node)
                &&& appended(b0.init, bm1.init)
                &&& bm1.init.last() == (Instr::CreateElement {
                    node,
                    kind: spec_kind(c.name.text@),
                })
                &&& placed(parent, b0.append, node, b0.mount, bm1.mount, b0.drop, bm1.drop)
                &&& bm1.once == b0.once
                &&& bm1.update == b0.update
                &&& bm1.cbs == b0.cbs
                &&& bumped(b0, bm1, c.name.text@)
                &&& bm1.append == b0.append
                &&& attrs_emitted(c.attrs@, node, details, props, attr_part(bm1), attr_part(bm2))
                &&& bm2.counts == bm1.counts
                &&& bm2.append == bm1.append
                &&& els_emitted(c.children@, Target::Node(node), details, props, bm2, b1)
            },
        Element::Text(t) => {
            &&& b1.init.last() matches Instr::CreateTextLiteral { node, text } && fresh_at(
                b0,
                "text"@,
                node,
            ) && text@ == t@ && placed(
                parent,
                b0.append,
                node,
                b0.mount,
                b1.mount,
                b0.drop,
                b1.drop,
            )
            &&& appended(b0.init, b1.init)
            &&& b1.once == b0.once
            &&& b1.update == b0.update
            &&& b1.cbs == b0.cbs
            &&& bumped(b0, b1, "text"@)
            &&& b1.append == b0.append
        },
        Element::Comment(t) => {
            &&& b1.init.last() matches Instr::CreateCommentLiteral { node, text } && fresh_at(
                b0,
                "text"@,
                node,
            ) && text@ == t@ && placed(
                parent,
                b0.append,
                node,
                b0.mount,
                b1.mount,
                b0.drop,
                b1.drop,
            )
            &&& appended(b0.init, b1.init)
            &&& b1.once == b0.once
            &&& b1.update == b0.update
            &&& b1.cbs == b0.cbs
            &&& bumped(b0, b1, "text"@)
            &&& b1.append == b0.append
        },
        Element::ExprElement(x) => match x {
            ExprElement::Ident(idn) => {
                &&& b1.init.last() matches Instr::CreateTextFromIdent {
                    node,
                    ident,
                    from_props,
                } && fresh_at(b0, "text"@, node) && ident.text@ == idn.text@ && from_props
                    == props_has(props, idn.text@) && placed(
                    parent,
                    b0.append,
                    node,
                    b0.mount,
                    b1.mount,
                    b0.drop,
                    b1.drop,
                ) && (b1.update.last() matches Instr::SetTextFromIdent {
                    node: n2,
                    ident: i2,
                    from_props: f2,
                } && n2 == node && i2.text@ == idn.text@ && f2 == from_props)
                &&& appended(b0.init, b1.init)
                &&& appended(b0.update, b1.update)
                &&& b1.once == b0.once
                &&& b1.cbs == b0.cbs
                &&& bumped(b0, b1, "text"@)
                &&& b1.append == b0.append
            },
            ExprElement::If { conditions } => conditions@.len() == 0 && b1 == b0,
            ExprElement::For { pat, expr, children } => match pat {
                ForPat::Ident(pn) => for_loop_emission(pn, expr, parent, details, b0, b1),
                ForPat::Other(_) => b1 == b0,
            },
            _ => b1 == b0,
        },
    }
}

/// What compiling an element list appends: each element's emission in
/// document order, threaded through intermediate snapshots.
pub open spec fn els_emitted(
    els: Seq<Element>,
    parent: Target,
    details: LocalDetails,
    props: Seq<(String, String)>,
    b0: ElSink,
    b1: ElSink,
) -> bool
    decreases els, 3nat,
{
    if els.len() == 0 {
        b1 == b0
    } else {
        exists|bm: ElSink|
            #[trigger] sink_snapshot(bm) && el_emission(els[0], parent, details, props, b0, bm)
                && els_emitted(els.skip(1), parent, details, props, bm, b1)
    }
}

proof fn lemma_els_emitted_cons(
    els: Seq<Element>,
    parent: Target,
    details: LocalDetails,
    props: Seq<(String, String)>,
    b0: ElSink,
    bm: ElSink,
    b1: ElSink,
)
    requires
        els.len() > 0,
        el_emission(els[0], parent, details, props, b0, bm),
        els_emitted(els.skip(1), parent, details, props, bm, b1),
    ensures
        els_emitted(els, parent, details, props, b0, b1),
{
    reveal_with_fuel(els_emitted, 2);
    assert(sink_snapshot(bm));
}

proof fn lemma_els_emitted_uncons(
    els: Seq<Element>,
    parent: Target,
    details: LocalDetails,
    props: Seq<(String, String)>,
    b0: ElSink,
    b1: ElSink,
) -> (bm: ElSink)
    requires
        els.len() > 0,
        els_emitted(els, parent, details, props, b0, b1),
    ensures
        el_emission(els[0], parent, details, props, b0, bm),
        els_emitted(els.skip(1), parent, details, props, bm, b1),
{
    reveal_with_fuel(els_emitted, 2);
    choose|bh: ElSink|
        #[trigger] sink_snapshot(bh) && el_emission(els[0], parent, details, props, b0, bh)
            && els_emitted(els.skip(1), parent, details, props, bh, b1)
}

proof fn lemma_els_emitted_snoc(
    els: Seq<Element>,
    x: Element,
    parent: Target,
    details: LocalDetails,
    props: Seq<(String, String)>,
    b0: ElSink,
    bm: ElSink,
    b1: ElSink,
)
    requires
        els_emitted(els, parent, details, props, b0, bm),
        el_emission(x, parent, details, props, bm, b1),
    ensures
        els_emitted(els.push(x), parent, details, props, b0, b1),
    decreases els,
{
    if els.len() == 0 {
        reveal_with_fuel(els_emitted, 1);
        assert(bm == b0);
        assert(els.push(x)[0] == x);
        assert(els.push(x).skip(1) =~= Seq::<Element>::empty());
        assert(els_emitted(els.push(x).skip(1), parent, details, props, b1, b1));
        lemma_els_emitted_cons(els.push(x), parent, details, props, b0, b1, b1);
    } else {
        let bh = lemma_els_emitted_uncons(els, parent, details, props, b0, bm);
        lemma_els_emitted_snoc(els.skip(1), x, parent, details, props, bh, bm, b1);
        assert(els.push(x)[0] == els[0]);
        assert(els.push(x).skip(1) =~= els.skip(1).push(x));
        lemma_els_emitted_cons(els.push(x), parent, details, props, b0, bh, b1);
    }
}

/// An attribute form generation cannot compile: a `bind:` binding that is
/// not `bind:value` on an input-like node.
pub open spec fn attr_unimpl(a: Attribute, tag: Seq<char>) -> bool {
    &&& a.expr is Ident
    &&& a.namespace@ == "bind"@
    &&& !(tag == "input"@ && a.name@ == "value"@)
}

pub open spec fn attrs_unimpl(attrs: Seq<Attribute>, tag: Seq<char>) -> bool
    decreases attrs,
{
    attrs.len() > 0 && (attr_unimpl(attrs[0], tag) || attrs_unimpl(attrs.skip(1), tag))
}

proof fn lemma_attrs_unimpl_index(attrs: Seq<Attribute>, i: int, tag: Seq<char>)
    requires
        0 <= i < attrs.len(),
        attr_unimpl(attrs[i], tag),
    ensures
        attrs_unimpl(attrs, tag),
    decreases i,
{
    if i > 0 {
        assert(attrs.skip(1)[i - 1] == attrs[i]);
        lemma_attrs_unimpl_index(attrs.skip(1), i - 1, tag);
    }
}

proof fn lemma_attrs_unimpl_none(attrs: Seq<Attribute>, tag: Seq<char>)
    requires
        forall|j: int| 0 <= j < attrs.len() ==> !attr_unimpl(#[trigger] attrs[j], tag),
    ensures
        !attrs_unimpl(attrs, tag),
    decreases attrs,
{
    if attrs.len() > 0 {
        assert forall|j: int| 0 <= j < attrs.skip(1).len() implies !attr_unimpl(
            #[trigger] attrs.skip(1)[j],
            tag,
        ) by {
            assert(attrs.skip(1)[j] == attrs[j + 1]);
        }
        lemma_attrs_unimpl_none(attrs.skip(1), tag);
    }
}

/// The scope's props carry this identifier.
pub open spec fn props_has(props: Seq<(String, String)>, name: Seq<char>) -> bool {
    exists|i: int| 0 <= i < props.len() && (#[trigger] props[i]).0@ == name
}

/// The first declared state field under this identifier, if any.
fn find_state_index(details: &LocalDetails, ident: &Name) -> (r: Option<usize>)
    ensures
        r matches Some(i) ==> i < details.states@.len() && details.states@[i as int].ident.text@
            == ident.text@ && forall|j: int|
            0 <= j < i ==> (#[trigger] details.states@[j]).ident.text@ != ident.text@,
        r is None ==> !states_contain(details.states@, ident.text@),
{
    let mut i: usize = 0;
    while i < details.states.len()
        invariant
            i <= details.states@.len(),
            forall|j: int| 0 <= j < i ==> (#[trigger] details.states@[j]).ident.text@
                != ident.text@,
        decreases details.states@.len() - i,
    {
        if str_eq(details.states[i].ident.text.as_str(), ident.text.as_str()) {
            return Some(i);
        }
        i = i + 1;
    }
    None
}

/// The registration slot of the event handler under this identifier: its
/// position among the declared handlers, if any.
fn find_event_slot(details: &LocalDetails, ident: &Name) -> (r: Option<usize>)
    ensures
        r matches Some(i) ==> i < details.events_closures@.len()
            && details.events_closures@[i as int].ident.text@ == ident.text@ && forall|j: int|
            0 <= j < i ==> (#[trigger] details.events_closures@[j]).ident.text@ != ident.text@,
        r is None ==> !crate::state_block::events_contain(
            details.events_closures@,
            ident.text@,
        ),
{
    let mut i: usize = 0;
    while i < details.events_closures.len()
        invariant
            i <= details.events_closures@.len(),
            forall|j: int| 0 <= j < i ==> (#[trigger] details.events_closures@[j]).ident.text@
                != ident.text@,
        decreases details.events_closures@.len() - i,
    {
        if str_eq(details.events_closures[i].ident.text.as_str(), ident.text.as_str()) {
            return Some(i);
        }
        i = i + 1;
    }
    None
}

impl Dom {
    /// Whether the scope's props carry this identifier, which decides
    /// whether generated code reads it from the props or from state.
    fn props_contain(&self, name: &str) -> (r: bool)
        ensures
            r == props_has(self.props@, name@),
    {
        let mut i: usize = 0;
        while i < self.props.len()
            invariant
                i <= self.props@.len(),
                forall|j: int| 0 <= j < i ==> (#[trigger] self.props@[j]).0@ != name@,
            decreases self.props@.len() - i,
        {
            if str_eq(self.props[i].0.as_str(), name) {
                proof {
                    assert(props_has(self.props@, name@));
                }
                return true;
            }
            i = i + 1;
        }
        proof {
            assert forall|j: int| 0 <= j < self.props@.len() implies (
            #[trigger] self.props@[j]).0@ != name@ by {}
        }
        false
    }

    /// Compiles one element's attributes: literal values are set once in
    /// init; identifier values re-apply on every mount; `on:` attaches
    /// the handler's slot in mount-once and detaches it in drop;
    /// `bind:value` on an input-like node builds the two-way binding; any
    /// other `bind:` is an unimplemented-feature error; expression-block
    /// values warn and are skipped.
    pub fn generate_attributes(
        &mut self,
        element_name: &NodeName,
        attrs: &Vec<Attribute>,
        details: &LocalDetails,
        state: &mut State,
    ) -> (r: Result<(), Diag>)
        requires
            old(self).wf(),
        ensures
            final(self).wf(),
            same_structure(*old(self), *final(self)),
            extends(old(self).init@, final(self).init@),
            extends(old(self).mount@, final(self).mount@),
            extends(old(self).mount_mounted@, final(self).mount_mounted@),
            extends(old(self).update@, final(self).update@),
            extends(old(self).drop@, final(self).drop@),
            state_extends(*old(state), *final(state)),
            r is Ok <==> forall|j: int|
                0 <= j < attrs@.len() ==> attr_ok(
                    #[trigger] attrs@[j],
                    element_name.tag@,
                    *details,
                    old(self).props@,
                ),
            r is Ok ==> attrs_emitted(
                attrs@,
                *element_name,
                *details,
                old(self).props@,
                sink_of(*old(self), *old(state)),
                sink_of(*final(self), *final(state)),
            ),
            r is Ok ==> !attrs_unimpl(attrs@, element_name.tag@),
            r is Err ==> exists|k: int|
                {
                    &&& 0 <= k < attrs@.len()
                    &&& !(#[trigger] attr_ok(
                        attrs@[k],
                        element_name.tag@,
                        *details,
                        old(self).props@,
                    ))
                    &&& forall|j: int|
                        0 <= j < k ==> attr_ok(
                            attrs@[j],
                            element_name.tag@,
                            *details,
                            old(self).props@,
                        )
                    &&& attrs_emitted(
                        attrs@.take(k),
                        *element_name,
                        *details,
                        old(self).props@,
                        sink_of(*old(self), *old(state)),
                        sink_of(*final(self), *final(state)),
                    )
                },
            no_clear_added(old(self).update@, final(self).update@),
    {
        proof {
            lemma_extends_refl(old(self).init@);
            lemma_extends_refl(old(self).mount@);
            lemma_extends_refl(old(self).mount_mounted@);
            lemma_extends_refl(old(self).update@);
            lemma_extends_refl(old(self).drop@);
            lemma_state_extends_refl(*old(state));
            assert(attrs@.take(0) =~= Seq::<Attribute>::empty());
            assert(sink_of(*self, *state) =~= sink_of(*old(self), *old(state)));
        }
        let mut i: usize = 0;
        while i < attrs.len()
            invariant
                i <= attrs@.len(),
                self.wf(),
                same_structure(*old(self), *self),
                extends(old(self).init@, self.init@),
                extends(old(self).mount@, self.mount@),
                extends(old(self).mount_mounted@, self.mount_mounted@),
                extends(old(self).update@, self.update@),
                extends(old(self).drop@, self.drop@),
                no_clear_added(old(self).update@, self.update@),
                state_extends(*old(state), *state),
                attrs_emitted(
                    attrs@.take(i as int),
                    *element_name,
                    *details,
                    old(self).props@,
                    sink_of(*old(self), *old(state)),
                    sink_of(*self, *state),
                ),
                forall|j: int| 0 <= j < i ==> attr_ok(
                    #[trigger] attrs@[j],
                    element_name.tag@,
                    *details,
                    old(self).props@,
                ),
                forall|j: int| 0 <= j < i ==> !attr_unimpl(
                    #[trigger] attrs@[j],
                    element_name.tag@,
                ),
            decreases attrs@.len() - i,
        {
            let ghost prev = *self;
            let ghost prev_state = *state;
            match &attrs[i].expr {
                AttrExprType::String(text) => {
                    self.init.push(
                        Instr::SetAttributeLiteral {
                            node: clone_node_name(element_name),
                            attr: attrs[i].name.clone(),
                            value: text.clone(),
                        },
                    );
                    proof {
                        lemma_extends_push(prev.init@, self.init@.last());
                        lemma_extends_trans(old(self).init@, prev.init@, self.init@);
                        assert(!attr_unimpl(attrs@[i as int], element_name.tag@));
                        assert(self.init@.take(prev.init@.len() as int) =~= prev.init@);
                        assert(attr_emission(
                            attrs@[i as int],
                            *element_name,
                            *details,
                            old(self).props@,
                            sink_of(prev, prev_state),
                            sink_of(*self, *state),
                        ));
                        assert(attr_ok(
                            attrs@[i as int],
                            element_name.tag@,
                            *details,
                            old(self).props@,
                        ));
                    }
                },
                AttrExprType::Block(e) => {
                    self.warnings.push(
                        Diag::new(
                            crate::expr::expr_first_pos(e),
                            String::from_str(
                                "Attribute's expression block is not handled yet.",
                            ),
                        ),
                    );
                    proof {
                        assert(!attr_unimpl(attrs@[i as int], element_name.tag@));
                        assert(attr_emission(
                            attrs@[i as int],
                            *element_name,
                            *details,
                            old(self).props@,
                            sink_of(prev, prev_state),
                            sink_of(*self, *state),
                        ));
                        assert(attr_ok(
                            attrs@[i as int],
                            element_name.tag@,
                            *details,
                            old(self).props@,
                        ));
                    }
                },
                AttrExprType::Ident(ident) => {
                    let on_input_value = str_eq(element_name.tag.as_str(), "input") && str_eq(
                        attrs[i].namespace.as_str(),
                        "bind",
                    ) && str_eq(attrs[i].name.as_str(), "value");
                    if on_input_value {
                        proof {
                            assert(!attr_unimpl(attrs@[i as int], element_name.tag@));
                        }
                        let k = match find_state_index(details, ident) {
                            Some(k) => k,
                            None => {
                                proof {
                                    assert(!attr_ok(
                                        attrs@[i as int],
                                        element_name.tag@,
                                        *details,
                                        old(self).props@,
                                    ));
                                }
                                return Err(
                                    Diag::new(
                                        ident.pos,
                                        String::from_str(
                                            "Variable is not declared in state's block.",
                                        ),
                                    ),
                                );
                            },
                        };
                        let slot = state.callbacks.len();
                        let bind = ClosureBindInput::new(
                            element_name.render().as_str(),
                            ident.text.clone(),
                            &details.states[k],
                        );
                        self.add_event_listener(element_name, "change", slot);
                        state.callbacks.push(bind.callback_on_change);
                        self.update.push(
                            Instr::BindInputUpdate {
                                node: clone_node_name(element_name),
                                line: bind.update_value,
                            },
                        );
                        self.init.push(
                            Instr::BindInputInit {
                                node: clone_node_name(element_name),
                                line: bind.init_value,
                            },
                        );
                        proof {
                            lemma_extends_push(prev.mount_mounted@, self.mount_mounted@.last());
                            lemma_extends_trans(
                                old(self).mount_mounted@,
                                prev.mount_mounted@,
                                self.mount_mounted@,
                            );
                            lemma_extends_push(prev.drop@, self.drop@.last());
                            lemma_extends_trans(old(self).drop@, prev.drop@, self.drop@);
                            lemma_extends_push(prev.update@, self.update@.last());
                            lemma_extends_trans(old(self).update@, prev.update@, self.update@);
                            lemma_extends_push(prev.init@, self.init@.last());
                            lemma_extends_trans(old(self).init@, prev.init@, self.init@);
                            assert(state.callbacks@.take(prev_state.callbacks@.len() as int)
                                =~= prev_state.callbacks@);
                            lemma_state_extends_trans(*old(state), prev_state, *state);
                            assert(self.update@.take(prev.update@.len() as int) =~= prev.update@);
                            assert(self.init@.take(prev.init@.len() as int) =~= prev.init@);
                            assert((#[trigger] details.states@[k as int]).ident.text@
                                == ident.text@);
                            assert(attr_emission(
                                attrs@[i as int],
                                *element_name,
                                *details,
                                old(self).props@,
                                sink_of(prev, prev_state),
                                sink_of(*self, *state),
                            ));
                            assert(states_contain(details.states@, ident.text@));
                            assert(attr_ok(
                                attrs@[i as int],
                                element_name.tag@,
                                *details,
                                old(self).props@,
                            ));
                        }
                    } else if str_eq(attrs[i].namespace.as_str(), "on") {
                        let slot = match find_event_slot(details, ident) {
                            Some(s) => s,
                            None => {
                                proof {
                                    assert(!attr_ok(
                                        attrs@[i as int],
                                        element_name.tag@,
                                        *details,
                                        old(self).props@,
                                    ));
                                }
                                return Err(
                                    Diag::new(
                                        ident.pos,
                                        String::from_str(
                                            "event's callback not declared in state's block.",
                                        ),
                                    ),
                                );
                            },
                        };
                        self.add_event_listener(element_name, attrs[i].name.as_str(), slot);
                        proof {
                            lemma_extends_push(prev.mount_mounted@, self.mount_mounted@.last());
                            lemma_extends_trans(
                                old(self).mount_mounted@,
                                prev.mount_mounted@,
                                self.mount_mounted@,
                            );
                            lemma_extends_push(prev.drop@, self.drop@.last());
                            lemma_extends_trans(old(self).drop@, prev.drop@, self.drop@);
                            reveal_strlit("bind");
                            reveal_strlit("on");
                            assert(("bind"@).len() == 4);
                            assert(("on"@).len() == 2);
                            assert(!attr_unimpl(attrs@[i as int], element_name.tag@));
                            assert((#[trigger] details.events_closures@[slot as int]).ident.text@
                                == ident.text@);
                            assert(attr_emission(
                                attrs@[i as int],
                                *element_name,
                                *details,
                                old(self).props@,
                                sink_of(prev, prev_state),
                                sink_of(*self, *state),
                            ));
                            assert(attr_ok(
                                attrs@[i as int],
                                element_name.tag@,
                                *details,
                                old(self).props@,
                            ));
                        }
                    } else if str_eq(attrs[i].namespace.as_str(), "bind") {
                        proof {
                            reveal_strlit("bind");
                            reveal_strlit("input");
                            reveal_strlit("value");
                            assert(attr_unimpl(attrs@[i as int], element_name.tag@));
                            lemma_attrs_unimpl_index(attrs@, i as int, element_name.tag@);
                            assert(!attr_ok(
                                attrs@[i as int],
                                element_name.tag@,
                                *details,
                                old(self).props@,
                            ));
                        }
                        return Err(
                            Diag::new(
                                ident.pos,
                                String::from_str(
                                    "Namespace bind is not implemented (except for value on input).",
                                ),
                            ),
                        );
                    } else {
                        let from_props = self.props_contain(ident.text.as_str());
                        if !from_props {
                            match find_state_index(details, ident) {
                                Some(_) => {},
                                None => {
                                    proof {
                                        assert(!attr_ok(
                                            attrs@[i as int],
                                            element_name.tag@,
                                            *details,
                                            old(self).props@,
                                        ));
                                    }
                                    return Err(
                                        Diag::new(
                                            ident.pos,
                                            String::from_str(
                                                "Variable is not declared in state's block.",
                                            ),
                                        ),
                                    );
                                },
                            }
                        }
                        self.mount.push(
                            Instr::SetAttributeFromIdent {
                                node: clone_node_name(element_name),
                                attr: attrs[i].name.clone(),
                                ident: clone_name(ident),
                                from_props,
                            },
                        );
                        proof {
                            lemma_extends_push(prev.mount@, self.mount@.last());
                            lemma_extends_trans(old(self).mount@, prev.mount@, self.mount@);
                            assert(!attr_unimpl(attrs@[i as int], element_name.tag@));
                            assert(self.mount@.take(prev.mount@.len() as int) =~= prev.mount@);
                            assert(attr_emission(
                                attrs@[i as int],
                                *element_name,
                                *details,
                                old(self).props@,
                                sink_of(prev, prev_state),
                                sink_of(*self, *state),
                            ));
                            assert(attr_ok(
                                attrs@[i as int],
                                element_name.tag@,
                                *details,
                                old(self).props@,
                            ));
                        }
                    }
                },
            }
            proof {
                assert(attrs@.take(i + 1) =~= attrs@.take(i as int).push(attrs@[i as int]));
                lemma_attrs_emitted_snoc(
                    attrs@.take(i as int),
                    attrs@[i as int],
                    *element_name,
                    *details,
                    old(self).props@,
                    sink_of(*old(self), *old(state)),
                    sink_of(prev, prev_state),
                    sink_of(*self, *state),
                );
                assert forall|j: int| 0 <= j < i + 1 implies !attr_unimpl(
                    #[trigger] attrs@[j],
                    element_name.tag@,
                ) by {}
            }
            i = i + 1;
        }
        proof {
            lemma_attrs_unimpl_none(attrs@, element_name.tag@);
            assert(attrs@.take(attrs@.len() as int) =~= attrs@);
        }
        Ok(())
    }
}


/// Whether an element references this identifier through a
/// bare-identifier attribute value or interpolation; loop-body scopes use
/// it to restrict their props to identifiers the body actually reads.
pub open spec fn el_references(e: Element, name: Seq<char>) -> bool
    decreases e, 0nat,
{
    match e {
        Element::Classic(c) => attrs_reference(c.attrs@, name) || els_reference(
            c.children@,
            name,
        ),
        Element::ExprElement(x) => match x {
            ExprElement::Ident(n) => n.text@ == name,
            ExprElement::For { children, .. } => els_reference(children@, name),
            ExprElement::If { conditions } => conds_reference(conditions@, name),
            _ => false,
        },
        _ => false,
    }
}

pub open spec fn attr_references(a: Attribute, name: Seq<char>) -> bool {
    a.expr matches AttrExprType::Ident(n) && n.text@ == name
}

pub open spec fn attrs_reference(s: Seq<Attribute>, name: Seq<char>) -> bool
    decreases s,
{
    s.len() > 0 && (attr_references(s[0], name) || attrs_reference(s.skip(1), name))
}

pub open spec fn els_reference(s: Seq<Element>, name: Seq<char>) -> bool
    decreases s, 1nat,
{
    s.len() > 0 && (el_references(s[0], name) || els_reference(s.skip(1), name))
}

pub open spec fn conds_reference(s: Seq<Condition>, name: Seq<char>) -> bool
    decreases s, 1nat,
{
    s.len() > 0 && (els_reference(s[0].children@, name) || conds_reference(s.skip(1), name))
}

proof fn lemma_attrs_reference_index(s: Seq<Attribute>, i: int, name: Seq<char>)
    requires
        0 <= i < s.len(),
        attr_references(s[i], name),
    ensures
        attrs_reference(s, name),
    decreases i,
{
    if i > 0 {
        assert(s.skip(1)[i - 1] == s[i]);
        lemma_attrs_reference_index(s.skip(1), i - 1, name);
    }
}

proof fn lemma_attrs_reference_none(s: Seq<Attribute>, name: Seq<char>)
    requires
        forall|j: int| 0 <= j < s.len() ==> !attr_references(#[trigger] s[j], name),
    ensures
        !attrs_reference(s, name),
    decreases s,
{
    if s.len() > 0 {
        assert forall|j: int| 0 <= j < s.skip(1).len() implies !attr_references(
            #[trigger] s.skip(1)[j],
            name,
        ) by {
            assert(s.skip(1)[j] == s[j + 1]);
        }
        lemma_attrs_reference_none(s.skip(1), name);
    }
}

proof fn lemma_els_reference_index(s: Seq<Element>, i: int, name: Seq<char>)
    requires
        0 <= i < s.len(),
        el_references(s[i], name),
    ensures
        els_reference(s, name),
    decreases i,
{
    if i > 0 {
        assert(s.skip(1)[i - 1] == s[i]);
        lemma_els_reference_index(s.skip(1), i - 1, name);
    }
}

proof fn lemma_els_reference_none(s: Seq<Element>, name: Seq<char>)
    requires
        forall|j: int| 0 <= j < s.len() ==> !el_references(#[trigger] s[j], name),
    ensures
        !els_reference(s, name),
    decreases s,
{
    if s.len() > 0 {
        assert forall|j: int| 0 <= j < s.skip(1).len() implies !el_references(
            #[trigger] s.skip(1)[j],
            name,
        ) by {
            assert(s.skip(1)[j] == s[j + 1]);
        }
        lemma_els_reference_none(s.skip(1), name);
    }
}

proof fn lemma_conds_reference_index(s: Seq<Condition>, i: int, name: Seq<char>)
    requires
        0 <= i < s.len(),
        els_reference(s[i].children@, name),
    ensures
        conds_reference(s, name),
    decreases i,
{
    if i > 0 {
        assert(s.skip(1)[i - 1] == s[i]);
        lemma_conds_reference_index(s.skip(1), i - 1, name);
    }
}

proof fn lemma_conds_reference_none(s: Seq<Condition>, name: Seq<char>)
    requires
        forall|j: int| 0 <= j < s.len() ==> !els_reference((#[trigger] s[j]).children@, name),
    ensures
        !conds_reference(s, name),
    decreases s,
{
    if s.len() > 0 {
        assert forall|j: int| 0 <= j < s.skip(1).len() implies !els_reference(
            (#[trigger] s.skip(1)[j]).children@,
            name,
        ) by {
            assert(s.skip(1)[j] == s[j + 1]);
        }
        lemma_conds_reference_none(s.skip(1), name);
    }
}

/// Whether any element of the list references this identifier.
pub fn els_reference_ident(els: &Vec<Element>, name: &str) -> (r: bool)
    ensures
        r == els_reference(els@, name@),
    decreases els, 1nat,
{
    let mut i: usize = 0;
    while i < els.len()
        invariant
            i <= els@.len(),
            forall|j: int| 0 <= j < i ==> !el_references(#[trigger] els@[j], name@),
        decreases els@.len() - i,
    {
        if el_references_ident(&els[i], name) {
            proof {
                lemma_els_reference_index(els@, i as int, name@);
            }
            return true;
        }
        i = i + 1;
    }
    proof {
        lemma_els_reference_none(els@, name@);
    }
    false
}

fn el_references_ident(e: &Element, name: &str) -> (r: bool)
    ensures
        r == el_references(*e, name@),
    decreases *e, 0nat,
{
    match e {
        Element::Classic(c) => {
            proof {
                assert(el_references(*e, name@) == (attrs_reference(c.attrs@, name@)
                    || els_reference(c.children@, name@)));
            }
            let mut i: usize = 0;
            while i < c.attrs.len()
                invariant
                    i <= c.attrs@.len(),
                    el_references(*e, name@) == (attrs_reference(c.attrs@, name@)
                        || els_reference(c.children@, name@)),
                    forall|j: int| 0 <= j < i ==> !attr_references(#[trigger] c.attrs@[j], name@),
                decreases c.attrs@.len() - i,
            {
                match &c.attrs[i].expr {
                    AttrExprType::Ident(n) => {
                        if str_eq(n.text.as_str(), name) {
                            proof {
                                assert(attr_references(c.attrs@[i as int], name@));
                                lemma_attrs_reference_index(c.attrs@, i as int, name@);
                                assert(el_references(*e, name@));
                            }
                            return true;
                        }
                    },
                    _ => {},
                }
                i = i + 1;
            }
            proof {
                lemma_attrs_reference_none(c.attrs@, name@);
            }
            els_reference_ident(&c.children, name)
        },
        Element::ExprElement(x) => match x {
            ExprElement::Ident(n) => str_eq(n.text.as_str(), name),
            ExprElement::For { children, .. } => els_reference_ident(children, name),
            ExprElement::If { conditions } => conds_reference_ident(conditions, name),
            _ => false,
        },
        _ => false,
    }
}

fn conds_reference_ident(conditions: &Vec<Condition>, name: &str) -> (r: bool)
    ensures
        r == conds_reference(conditions@, name@),
    decreases conditions, 2nat,
{
    let mut i: usize = 0;
    while i < conditions.len()
        invariant
            i <= conditions@.len(),
            forall|j: int| 0 <= j < i ==> !els_reference(
                (#[trigger] conditions@[j]).children@,
                name@,
            ),
        decreases conditions@.len() - i,
    {
        if els_reference_ident(&conditions[i].children, name) {
            proof {
                lemma_conds_reference_index(conditions@, i as int, name@);
            }
            return true;
        }
        i = i + 1;
    }
    proof {
        lemma_conds_reference_none(conditions@, name@);
    }
    false
}

/// Every attribute of the list compiles in this scope.
pub open spec fn attrs_all_ok(
    s: Seq<Attribute>,
    tag: Seq<char>,
    details: LocalDetails,
    props: Seq<(String, String)>,
) -> bool
    decreases s,
{
    s.len() == 0 || (attr_ok(s[0], tag, details, props) && attrs_all_ok(
        s.skip(1),
        tag,
        details,
        props,
    ))
}

proof fn lemma_attrs_all_ok_iff(
    s: Seq<Attribute>,
    tag: Seq<char>,
    details: LocalDetails,
    props: Seq<(String, String)>,
)
    ensures
        attrs_all_ok(s, tag, details, props) <==> (forall|j: int|
            0 <= j < s.len() ==> attr_ok(#[trigger] s[j], tag, details, props)),
    decreases s,
{
    if s.len() > 0 {
        lemma_attrs_all_ok_iff(s.skip(1), tag, details, props);
        if attrs_all_ok(s, tag, details, props) {
            assert forall|j: int| 0 <= j < s.len() implies attr_ok(
                #[trigger] s[j],
                tag,
                details,
                props,
            ) by {
                if j > 0 {
                    assert(s.skip(1)[j - 1] == s[j]);
                }
            }
        }
        if forall|j: int| 0 <= j < s.len() ==> attr_ok(#[trigger] s[j], tag, details, props) {
            assert forall|j: int|
                0 <= j < s.skip(1).len() implies attr_ok(
                #[trigger] s.skip(1)[j],
                tag,
                details,
                props,
            ) by {
                assert(s.skip(1)[j] == s[j + 1]);
            }
            assert(attr_ok(s[0], tag, details, props));
        }
    }
}

/// Every bare identifier the scope itself must resolve does: attribute
/// identifiers by their namespace rule, interpolation identifiers to a
/// prop or state field. Loop bodies resolve in their own scope.
pub open spec fn el_resolved(
    e: Element,
    details: LocalDetails,
    props: Seq<(String, String)>,
) -> bool
    decreases e, 0nat,
{
    match e {
        Element::Classic(c) => attrs_all_ok(c.attrs@, c.name.text@, details, props)
            && els_resolved(c.children@, details, props),
        Element::ExprElement(x) => match x {
            ExprElement::Ident(n) => props_has(props, n.text@) || states_contain(
                details.states@,
                n.text@,
            ),
            _ => true,
        },
        _ => true,
    }
}

pub open spec fn els_resolved(
    s: Seq<Element>,
    details: LocalDetails,
    props: Seq<(String, String)>,
) -> bool
    decreases s, 1nat,
{
    s.len() == 0 || (el_resolved(s[0], details, props) && els_resolved(
        s.skip(1),
        details,
        props,
    ))
}

proof fn lemma_els_resolved_index(
    s: Seq<Element>,
    i: int,
    details: LocalDetails,
    props: Seq<(String, String)>,
)
    requires
        els_resolved(s, details, props),
        0 <= i < s.len(),
    ensures
        el_resolved(s[i], details, props),
    decreases i,
{
    if i > 0 {
        assert(s.skip(1)[i - 1] == s[i]);
        lemma_els_resolved_index(s.skip(1), i - 1, details, props);
    }
}

/// Whether the scope itself compiles a repeated section, whose success
/// additionally depends on the supplied type-lookup table.
pub open spec fn el_has_loop(e: Element) -> bool
    decreases e, 0nat,
{
    match e {
        Element::Classic(c) => els_has_loop(c.children@),
        Element::ExprElement(x) => match x {
            ExprElement::For { pat, .. } => pat is Ident,
            _ => false,
        },
        _ => false,
    }
}

pub open spec fn els_has_loop(s: Seq<Element>) -> bool
    decreases s, 1nat,
{
    s.len() > 0 && (el_has_loop(s[0]) || els_has_loop(s.skip(1)))
}

proof fn lemma_els_has_loop_index(s: Seq<Element>, i: int)
    requires
        0 <= i < s.len(),
        el_has_loop(s[i]),
    ensures
        els_has_loop(s),
    decreases i,
{
    if i > 0 {
        assert(s.skip(1)[i - 1] == s[i]);
        lemma_els_has_loop_index(s.skip(1), i - 1);
    }
}

proof fn lemma_els_unimpl_index(s: Seq<Element>, i: int)
    requires
        0 <= i < s.len(),
        el_unimpl(s[i]),
    ensures
        els_unimpl(s),
    decreases i,
{
    if i > 0 {
        assert(s.skip(1)[i - 1] == s[i]);
        lemma_els_unimpl_index(s.skip(1), i - 1);
    }
}

/// How many fields compiling an element can register in its scope: one
/// per created node, two bookkeeping fields plus an anchor node for a
/// compilable loop (counted with its body for the nested scope's room).
pub open spec fn budget_el(e: Element) -> nat
    decreases e, 0nat,
{
    match e {
        Element::Classic(c) => 1 + budget_els(c.children@),
        Element::Text(_) => 1,
        Element::Comment(_) => 1,
        Element::ExprElement(x) => match x {
            ExprElement::Ident(_) => 1,
            ExprElement::For { pat, children, .. } => if pat is Ident {
                3 + budget_els(children@)
            } else {
                0
            },
            _ => 0,
        },
    }
}

pub open spec fn budget_els(s: Seq<Element>) -> nat
    decreases s, 1nat,
{
    if s.len() == 0 {
        0
    } else {
        budget_el(s[0]) + budget_els(s.skip(1))
    }
}

/// The budget splits around any position of the list.
pub proof fn lemma_budget_els_split(s: Seq<Element>, k: int)
    requires
        0 <= k <= s.len(),
    ensures
        budget_els(s) == budget_els(s.take(k)) + budget_els(s.skip(k)),
    decreases k,
{
    if k == 0 {
        assert(s.take(0) =~= Seq::<Element>::empty());
        assert(s.skip(0) =~= s);
    } else {
        lemma_budget_els_split(s.skip(1), k - 1);
        assert(s.take(k)[0] == s[0]);
        assert(s.take(k).skip(1) =~= s.skip(1).take(k - 1));
        assert(s.skip(k) =~= s.skip(1).skip(k - 1));
    }
}

/// A construct generation stops on: an `if` chain with branches (codegen
/// for conditionals is an explicit, diagnosed gap), or such a construct
/// inside a tag's children or a compiled loop body. Loops whose pattern
/// is not a single identifier are skipped with a warning, so their bodies
/// do not count.
pub open spec fn el_unimpl(e: Element) -> bool
    decreases e, 0nat,
{
    match e {
        Element::Classic(c) => attrs_unimpl(c.attrs@, c.name.text@) || els_unimpl(c.children@),
        Element::ExprElement(x) => match x {
            ExprElement::If { conditions } => conditions@.len() > 0,
            ExprElement::For { pat, children, .. } => pat is Ident && els_unimpl(children@),
            _ => false,
        },
        _ => false,
    }
}

pub open spec fn els_unimpl(els: Seq<Element>) -> bool
    decreases els, 1nat,
{
    els.len() > 0 && (el_unimpl(els[0]) || els_unimpl(els.skip(1)))
}

proof fn lemma_els_unimpl_none(els: Seq<Element>)
    requires
        forall|j: int| 0 <= j < els.len() ==> !el_unimpl(#[trigger] els[j]),
    ensures
        !els_unimpl(els),
    decreases els,
{
    if els.len() > 0 {
        assert forall|j: int| 0 <= j < els.skip(1).len() implies !el_unimpl(
            #[trigger] els.skip(1)[j],
        ) by {
            assert(els.skip(1)[j] == els[j + 1]);
        }
        lemma_els_unimpl_none(els.skip(1));
    }
}

/// The union of two name lists, with set meaning.
pub fn union_names(a: &Vec<String>, b: &Vec<String>) -> (r: Vec<String>)
    ensures
        name_set(r@) == name_set(a@).union(name_set(b@)),
{
    let mut out: Vec<String> = Vec::new();
    let mut i: usize = 0;
    while i < a.len()
        invariant
            i <= a@.len(),
            forall|n: Seq<char>|
                #[trigger] name_set(out@).contains(n) <==> exists|j: int|
                    0 <= j < i && (#[trigger] a@[j])@ == n,
        decreases a@.len() - i,
    {
        let ghost pre = out@;
        crate::visitor::ident::insert_name(&mut out, a[i].as_str());
        proof {
            assert forall|n: Seq<char>| #[trigger] name_set(out@).contains(n) implies exists|j: int|
                0 <= j < i + 1 && (#[trigger] a@[j])@ == n by {
                if n != a@[i as int]@ {
                    assert(name_set(pre).contains(n));
                    let j = choose|j: int| 0 <= j < i && (#[trigger] a@[j])@ == n;
                    assert(0 <= j < i + 1 && a@[j]@ == n);
                } else {
                    assert(0 <= i < i + 1 && a@[i as int]@ == n);
                }
            }
            assert forall|n: Seq<char>|
                (exists|j: int| 0 <= j < i + 1 && (#[trigger] a@[j])@ == n) implies #[trigger] name_set(
                out@,
            ).contains(n) by {
                let j = choose|j: int| 0 <= j < i + 1 && (#[trigger] a@[j])@ == n;
                if j < i {
                    assert(name_set(pre).contains(n));
                }
            }
        }
        i = i + 1;
    }
    let mut k: usize = 0;
    while k < b.len()
        invariant
            k <= b@.len(),
            forall|n: Seq<char>|
                #[trigger] name_set(out@).contains(n) <==> ((exists|j: int|
                    0 <= j < a@.len() && (#[trigger] a@[j])@ == n) || (exists|j: int|
                    0 <= j < k && (#[trigger] b@[j])@ == n)),
        decreases b@.len() - k,
    {
        let ghost pre = out@;
        crate::visitor::ident::insert_name(&mut out, b[k].as_str());
        proof {
            assert forall|n: Seq<char>| #[trigger] name_set(out@).contains(n) implies ((
            exists|j: int| 0 <= j < a@.len() && (#[trigger] a@[j])@ == n) || (exists|j: int|
                0 <= j < k + 1 && (#[trigger] b@[j])@ == n)) by {
                if n != b@[k as int]@ {
                    assert(name_set(pre).contains(n));
                } else {
                    assert(0 <= k < k + 1 && b@[k as int]@ == n);
                }
            }
            assert forall|n: Seq<char>|
                ((exists|j: int| 0 <= j < a@.len() && (#[trigger] a@[j])@ == n) || (exists|j: int|
                    0 <= j < k + 1 && (#[trigger] b@[j])@ == n)) implies #[trigger] name_set(
                out@,
            ).contains(n) by {
                if exists|j: int| 0 <= j < a@.len() && (#[trigger] a@[j])@ == n {
                    assert(name_set(pre).contains(n));
                } else {
                    let j = choose|j: int| 0 <= j < k + 1 && (#[trigger] b@[j])@ == n;
                    if j < k {
                        assert(name_set(pre).contains(n));
                    }
                }
            }
        }
        k = k + 1;
    }
    proof {
        assert(name_set(out@) =~= name_set(a@).union(name_set(b@)));
    }
    out
}

/// The synthetic compilable snippet a loop hands to type lookup: the host
/// block followed by the loop header with an empty body. Results are
/// cached by exact equality of this text.
pub fn loop_snippet(details: &LocalDetails, pat: &Name, iterable: &Expr) -> String {
    let mut out = details.block.clone();
    out.append("
");
    out.append("for ");
    out.append(pat.text.as_str());
    out.append(" in ");
    out.append(expr_to_text(iterable).as_str());
    out.append(" { }");
    out
}

/// The cached type-lookup result whose snippet text matches exactly.
fn find_lookup(lookups: &Vec<(String, Vec<PatBinding>)>, snippet: &str) -> (r: Option<usize>)
    ensures
        r matches Some(i) ==> i < lookups@.len(),
{
    let mut i: usize = 0;
    while i < lookups.len()
        invariant
            i <= lookups@.len(),
        decreases lookups@.len() - i,
    {
        if str_eq(lookups[i].0.as_str(), snippet) {
            return Some(i);
        }
        i = i + 1;
    }
    None
}

impl Dom {
    /// Compiles one repeated section. Only a single-identifier pattern is
    /// supported: any other pattern warns and skips the loop entirely.
    /// The iterable is rewritten through the shared-state accessors and
    /// the identifiers it touches become the dependency set gating the
    /// loop's update; type lookup supplies the pattern binding's type for
    /// the loop body's props; the body compiles as its own non-appending
    /// child scope.
    fn generate_for_loop(
        &mut self,
        parent: &Target,
        details: &LocalDetails,
        pat: &ForPat,
        iterable: &Expr,
        children: &Vec<Element>,
        state: &mut State,
        lookups: &Vec<(String, Vec<PatBinding>)>,
    ) -> (r: Result<(), Diag>)
        requires
            old(self).wf(),
            pat is Ident ==> old(self).fields@.len() + 3 + budget_els(children@) <= usize::MAX,
        ensures
            final(self).wf(),
            final(self).props@ == old(self).props@,
            final(self).append_nodes == old(self).append_nodes,
            extends(old(self).init@, final(self).init@),
            extends(old(self).mount@, final(self).mount@),
            extends(old(self).mount_mounted@, final(self).mount_mounted@),
            extends(old(self).update@, final(self).update@),
            extends(old(self).drop@, final(self).drop@),
            state_extends(*old(state), *final(state)),
            pat is Ident ==> final(self).fields@.len() <= old(self).fields@.len() + 2,
            (pat is Other) ==> {
                &&& r is Ok
                &&& final(self).fields@ == old(self).fields@
                &&& final(self).init@ == old(self).init@
                &&& final(self).mount@ == old(self).mount@
                &&& final(self).mount_mounted@ == old(self).mount_mounted@
                &&& final(self).update@ == old(self).update@
                &&& final(self).drop@ == old(self).drop@
                &&& final(self).sub_doms@ == old(self).sub_doms@
                &&& final(self).tag_count@ == old(self).tag_count@
                &&& *final(state) == *old(state)
            },
            r is Ok && pat is Ident ==> !els_unimpl(children@),
            r is Ok ==> (pat matches ForPat::Ident(pn) ==> {
                &&& final(self).mount@.len() == old(self).mount@.len() + 2
                &&& final(self).mount@.last() matches Instr::LoopMount {
                    name: n5,
                    pat: p5,
                    anchor: a5,
                    ..
                } && p5 == *pn && n5.tag@ == "for_loop"@ && a5.tag@ == "empty"@
                &&& final(self).sub_doms@.len() == old(self).sub_doms@.len() + 1
                &&& !final(self).sub_doms@.last().1.append_nodes
                &&& !els_reference(children@, pn.text@) ==> final(self).sub_doms@.last().1.props@.len() == 0
            }),
            (r is Ok && pat matches ForPat::Ident(p)) ==> final(self).update@.len() > 0 && (
            final(self).update@.last() matches Instr::LoopReconcile { deps, .. } && name_set(deps@)
                == ({
                let m = rw_expr(
                    view_expr(*iterable),
                    RwView {
                        names: Set::<Seq<char>>::empty(),
                        reads: Set::<Seq<char>>::empty(),
                        muts: Set::<Seq<char>>::empty(),
                        locals: Set::<Seq<char>>::empty(),
                        errs: 0,
                    },
                    crate::state_block::states_name_set(details.states@),
                    "self.state"@,
                    false,
                ).1;
                m.reads.union(m.muts)
            })),
            no_clear_added(old(self).update@, final(self).update@),
            r is Ok ==> (pat matches ForPat::Ident(pn) ==> (forall|j: int|
                0 <= j < final(self).sub_doms@.last().1.update@.len()
                    ==> !((#[trigger] final(self).sub_doms@.last().1.update@[j])
                    is ClearUpdatedIdents))),
            r is Ok ==> (pat matches ForPat::Ident(pn) ==> for_loop_emission(
                *pn,
                *iterable,
                *parent,
                *details,
                el_sink_of(*old(self), *old(state)),
                el_sink_of(*final(self), *final(state)),
            )),
        decreases children, 2nat,
    {
        proof {
            lemma_extends_refl(old(self).init@);
            lemma_extends_refl(old(self).mount@);
            lemma_extends_refl(old(self).mount_mounted@);
            lemma_extends_refl(old(self).update@);
            lemma_extends_refl(old(self).drop@);
            lemma_state_extends_refl(*old(state));
        }
        let pat_name = match pat {
            ForPat::Ident(n) => n,
            ForPat::Other(p) => {
                self.warnings.push(
                    Diag::new(
                        *p,
                        String::from_str(
                            "For loop is skipped: only a single-identifier pattern is supported.",
                        ),
                    ),
                );
                return Ok(());
            },
        };
        let name = self.generate_node_name("for_loop", FieldKind::LoopVec);
        let ghost after_name = *self;
        self.init.push(Instr::InitLoopVec { name: clone_node_name(&name) });
        self.init.push(Instr::InitLoopFlag { name: clone_node_name(&name) });
        proof {
            assert(self.init@.take(old(self).init@.len() as int) =~= old(self).init@);
            assert(extends(old(self).init@, self.init@));
        }
        let mut im = details.get_ident_modifier("self.state");
        let rewritten = im.rewrite_expr(iterable);
        let deps = union_names(&im.names_ref, &im.names_refmut);
        let snippet = loop_snippet(details, pat_name, iterable);
        let bindings_at = match find_lookup(lookups, snippet.as_str()) {
            Some(i) => i,
            None => {
                return Err(
                    Diag::new(
                        pat_name.pos,
                        String::from_str("Type lookup has no result for this loop."),
                    ),
                );
            },
        };
        let ghost before_anchor = *self;
        let anchor = self.create_empty_node(parent);
        proof {
            lemma_extends_trans(old(self).init@, before_anchor.init@, self.init@);
            lemma_extends_trans(old(self).mount@, before_anchor.mount@, self.mount@);
            lemma_extends_trans(old(self).drop@, before_anchor.drop@, self.drop@);
        }
        let mut props: Vec<(String, String)> = Vec::new();
        let body_uses_pattern = els_reference_ident(children, pat_name.text.as_str());
        if body_uses_pattern {
            let bindings = &lookups[bindings_at].1;
            let mut bi: usize = 0;
            while bi < bindings.len()
                decreases bindings@.len() - bi,
            {
                if str_eq(bindings[bi].name.as_str(), pat_name.text.as_str()) {
                    props.push((bindings[bi].name.clone(), bindings[bi].ty.clone()));
                }
                bi = bi + 1;
            }
        }
        let ghost before_mount = *self;
        self.mount.push(
            Instr::LoopMount {
                name: clone_node_name(&name),
                pat: clone_name(pat_name),
                iterable: clone_expr(&rewritten),
                anchor: clone_node_name(&anchor),
            },
        );
        self.update.push(
            Instr::LoopReconcile {
                name: clone_node_name(&name),
                deps,
                pat: clone_name(pat_name),
                iterable: rewritten,
                anchor: clone_node_name(&anchor),
            },
        );
        proof {
            lemma_extends_push(before_mount.mount@, self.mount@.last());
            lemma_extends_trans(old(self).mount@, before_mount.mount@, self.mount@);
            lemma_extends_push(before_mount.update@, self.update@.last());
            lemma_extends_trans(old(self).update@, before_mount.update@, self.update@);
            assert(no_clear_added(before_mount.update@, self.update@));
            lemma_no_clear_trans(old(self).update@, before_mount.update@, self.update@);
        }
        let ghost before_sub = *self;
        let ghost state_before_sub = *state;
        let sub = match Dom::generate(children, details, props, state, false, lookups) {
            Ok(d) => d,
            Err(d) => {
                return Err(d);
            },
        };
        let ghost gname = name;
        let ghost ganchor = anchor;
        self.sub_doms.push((name, sub));
        proof {
            let b0 = el_sink_of(*old(self), *old(state));
            let b1 = el_sink_of(*self, *state);
            reveal_strlit("for_loop");
            reveal_strlit("empty");
            assert(("for_loop"@).len() == 8);
            assert(("empty"@).len() == 5);
            assert(b1.init =~= b0.init.push(Instr::InitLoopVec { name: gname }).push(
                Instr::InitLoopFlag { name: gname },
            ).push(Instr::CreateAnchor { node: ganchor }));
            assert(b1.init.take(b0.init.len() as int) =~= b0.init);
            assert(fresh_at(b0, "for_loop"@, gname));
            assert(ganchor.index == count_of(b0.counts, "empty"@) + 1);
            assert(b1.mount.take(b0.mount.len() as int) =~= b0.mount);
            assert(b1.mount[b0.mount.len() as int] == before_mount.mount@.last());
            assert(cbs_extends(b0.cbs, b1.cbs)) by {
                assert forall|j: int| 0 <= j < b0.cbs.len() implies b1.cbs[j] == b0.cbs[j] by {
                    assert(b1.cbs.take(b0.cbs.len() as int)[j] == b0.cbs[j]);
                }
            }
            assert forall|t2: Seq<char>|
                t2 != "for_loop"@ && t2 != "empty"@ implies count_of(b1.counts, t2) == count_of(
                b0.counts,
                t2,
            ) by {}
            assert(view_expr(self.mount@.last()->LoopMount_iterable) == loop_rw(
                *iterable,
                *details,
            ).0);
            assert(for_loop_emission(*pat_name, *iterable, *parent, *details, b0, b1));
        }
        Ok(())
    }

    /// Walks a region of the element tree and emits its instructions in
    /// document order: tags create and append nodes and recurse into
    /// attributes and children, text and comments become one-shot nodes,
    /// a bare-identifier interpolation becomes a text node kept in sync
    /// on update, loops compile child scopes, and an `if` chain with
    /// branches is an unimplemented-feature error.
    pub fn generate_elements(
        &mut self,
        parent_name: &Target,
        elements: &Vec<Element>,
        details: &LocalDetails,
        state: &mut State,
        lookups: &Vec<(String, Vec<PatBinding>)>,
    ) -> (r: Result<(), Diag>)
        requires
            old(self).wf(),
            old(self).fields@.len() + budget_els(elements@) <= usize::MAX,
        ensures
            final(self).wf(),
            final(self).props@ == old(self).props@,
            final(self).append_nodes == old(self).append_nodes,
            extends(old(self).init@, final(self).init@),
            extends(old(self).mount@, final(self).mount@),
            extends(old(self).mount_mounted@, final(self).mount_mounted@),
            extends(old(self).update@, final(self).update@),
            extends(old(self).drop@, final(self).drop@),
            state_extends(*old(state), *final(state)),
            final(self).fields@.len() <= old(self).fields@.len() + budget_els(elements@),
            r is Ok ==> !els_unimpl(elements@),
            (!els_unimpl(elements@) && els_resolved(elements@, *details, old(self).props@)
                && !els_has_loop(elements@)) ==> r is Ok,
            r is Ok ==> els_emitted(
                elements@,
                *parent_name,
                *details,
                old(self).props@,
                el_sink_of(*old(self), *old(state)),
                el_sink_of(*final(self), *final(state)),
            ),
            no_clear_added(old(self).update@, final(self).update@),
        decreases elements, 0nat,
    {
        proof {
            lemma_extends_refl(old(self).init@);
            lemma_extends_refl(old(self).mount@);
            lemma_extends_refl(old(self).mount_mounted@);
            lemma_extends_refl(old(self).update@);
            lemma_extends_refl(old(self).drop@);
            lemma_state_extends_refl(*old(state));
            reveal_with_fuel(els_emitted, 1);
            assert(elements@.take(0) =~= Seq::<Element>::empty());
            assert(el_sink_of(*self, *state) =~= el_sink_of(*old(self), *old(state)));
        }
        let mut i: usize = 0;
        while i < elements.len()
            invariant
                i <= elements@.len(),
                self.wf(),
                old(self).fields@.len() + budget_els(elements@) <= usize::MAX,
                self.fields@.len() <= old(self).fields@.len() + budget_els(
                    elements@.take(i as int),
                ),
                budget_els(elements@.take(i as int)) <= budget_els(elements@),
                self.props@ == old(self).props@,
                self.append_nodes == old(self).append_nodes,
                extends(old(self).init@, self.init@),
                extends(old(self).mount@, self.mount@),
                extends(old(self).mount_mounted@, self.mount_mounted@),
                extends(old(self).update@, self.update@),
                extends(old(self).drop@, self.drop@),
                state_extends(*old(state), *state),
                no_clear_added(old(self).update@, self.update@),
                els_emitted(
                    elements@.take(i as int),
                    *parent_name,
                    *details,
                    old(self).props@,
                    el_sink_of(*old(self), *old(state)),
                    el_sink_of(*self, *state),
                ),
                forall|j: int| 0 <= j < i ==> !el_unimpl(#[trigger] elements@[j]),
            decreases elements@.len() - i,
        {
            let ghost prev = *self;
            let ghost prev_state = *state;
            proof {
                lemma_budget_els_split(elements@, i as int);
                lemma_budget_els_split(elements@, i + 1);
                assert(elements@.take(i + 1).take(i as int) =~= elements@.take(i as int));
                assert(elements@.take(i + 1).skip(i as int) =~= seq![elements@[i as int]]);
                lemma_budget_els_split(elements@.take(i + 1), i as int);
                assert(budget_els(seq![elements@[i as int]]) == budget_el(elements@[i as int]))
                    by {
                    assert(seq![elements@[i as int]].skip(1) =~= Seq::<Element>::empty());
                    assert(budget_els(Seq::<Element>::empty()) == 0);
                };
                assert(budget_els(elements@.take(i + 1)) == budget_els(elements@.take(i as int))
                    + budget_el(elements@[i as int]));
                assert(budget_els(elements@.take(i + 1)) <= budget_els(elements@)) by {
                    assert(elements@.skip(i + 1).len() >= 0);
                };
            }
            match &elements[i] {
                Element::Classic(c) => {
                    proof {
                        assert(budget_el(elements@[i as int]) == 1 + budget_els(c.children@));
                        assert(budget_els(elements@.take(i as int)) + budget_el(
                            elements@[i as int],
                        ) <= budget_els(elements@));
                        assert(self.fields@.len() < usize::MAX);
                    }
                    let generated_name = self.create_node(parent_name, c.name.text.as_str());
                    let ghost gnode = generated_name;
                    let ghost after_node = *self;
                    let attrs_result = self.generate_attributes(
                        &generated_name,
                        &c.attrs,
                        details,
                        state,
                    );
                    proof {
                        lemma_extends_trans(old(self).init@, prev.init@, after_node.init@);
                        lemma_extends_trans(old(self).mount@, prev.mount@, after_node.mount@);
                        lemma_extends_trans(
                            old(self).mount_mounted@,
                            prev.mount_mounted@,
                            after_node.mount_mounted@,
                        );
                        lemma_extends_trans(old(self).update@, prev.update@, after_node.update@);
                        lemma_extends_trans(old(self).drop@, prev.drop@, after_node.drop@);
                        lemma_extends_trans(old(self).init@, after_node.init@, self.init@);
                        lemma_extends_trans(old(self).mount@, after_node.mount@, self.mount@);
                        lemma_extends_trans(
                            old(self).mount_mounted@,
                            after_node.mount_mounted@,
                            self.mount_mounted@,
                        );
                        lemma_extends_trans(old(self).update@, after_node.update@, self.update@);
                        lemma_extends_trans(old(self).drop@, after_node.drop@, self.drop@);
                        lemma_no_clear_trans(
                            old(self).update@,
                            after_node.update@,
                            self.update@,
                        );
                        lemma_state_extends_trans(*old(state), prev_state, *state);
                    }
                    match attrs_result {
                        Ok(_) => {},
                        Err(d) => {
                            proof {
                                if els_resolved(elements@, *details, old(self).props@) {
                                    lemma_els_resolved_index(
                                        elements@,
                                        i as int,
                                        *details,
                                        old(self).props@,
                                    );
                                    lemma_attrs_all_ok_iff(
                                        c.attrs@,
                                        c.name.text@,
                                        *details,
                                        old(self).props@,
                                    );
                                    assert(false);
                                }
                            }
                            return Err(d);
                        },
                    }
                    let ghost after_attrs = *self;
                    let ghost state_after_attrs = *state;
                    proof {
                        assert(self.fields@.len() + budget_els(c.children@) <= usize::MAX);
                    }
                    let children_result = self.generate_elements(
                        &Target::Node(generated_name),
                        &c.children,
                        details,
                        state,
                        lookups,
                    );
                    proof {
                        lemma_extends_trans(old(self).init@, after_attrs.init@, self.init@);
                        lemma_extends_trans(old(self).mount@, after_attrs.mount@, self.mount@);
                        lemma_extends_trans(
                            old(self).mount_mounted@,
                            after_attrs.mount_mounted@,
                            self.mount_mounted@,
                        );
                        lemma_extends_trans(old(self).update@, after_attrs.update@, self.update@);
                        lemma_extends_trans(old(self).drop@, after_attrs.drop@, self.drop@);
                        lemma_no_clear_trans(
                            old(self).update@,
                            after_attrs.update@,
                            self.update@,
                        );
                        lemma_state_extends_trans(*old(state), prev_state, state_after_attrs);
                        lemma_state_extends_trans(*old(state), state_after_attrs, *state);
                    }
                    match children_result {
                        Ok(_) => {},
                        Err(d) => {
                            proof {
                                if !els_unimpl(elements@) && els_resolved(
                                    elements@,
                                    *details,
                                    old(self).props@,
                                ) && !els_has_loop(elements@) {
                                    lemma_els_resolved_index(
                                        elements@,
                                        i as int,
                                        *details,
                                        old(self).props@,
                                    );
                                    if els_unimpl(c.children@) {
                                        assert(el_unimpl(elements@[i as int]));
                                        lemma_els_unimpl_index(elements@, i as int);
                                    }
                                    if els_has_loop(c.children@) {
                                        assert(el_has_loop(elements@[i as int]));
                                        lemma_els_has_loop_index(elements@, i as int);
                                    }
                                    assert(false);
                                }
                            }
                            return Err(d);
                        },
                    }
                    proof {
                        let b0a = el_sink_of(prev, prev_state);
                        let b1a = el_sink_of(*self, *state);
                        let bm1 = el_sink_of(after_node, prev_state);
                        let bm2 = el_sink_of(after_attrs, state_after_attrs);
                        assert(sink_snapshot(bm1));
                        assert(sink_snapshot(bm2));
                        assert(fresh_at(b0a, c.name.text@, gnode));
                        assert(bm1.init.take(b0a.init.len() as int) =~= b0a.init);
                        assert(bm1.init.last() == (Instr::CreateElement {
                            node: gnode,
                            kind: spec_kind(c.name.text@),
                        }));
                        assert(bm1.mount.take(b0a.mount.len() as int) =~= b0a.mount);
                        if parent_name is Root {
                            assert(bm1.drop.take(b0a.drop.len() as int) =~= b0a.drop);
                        }
                        assert(placed(
                            *parent_name,
                            b0a.append,
                            gnode,
                            b0a.mount,
                            bm1.mount,
                            b0a.drop,
                            bm1.drop,
                        ));
                        assert(attr_part(bm1) =~= sink_of(after_node, prev_state));
                        assert(attr_part(bm2) =~= sink_of(after_attrs, state_after_attrs));
                        assert(attrs_emitted(
                            c.attrs@,
                            gnode,
                            *details,
                            old(self).props@,
                            attr_part(bm1),
                            attr_part(bm2),
                        ));
                        assert(els_emitted(
                            c.children@,
                            Target::Node(gnode),
                            *details,
                            old(self).props@,
                            bm2,
                            b1a,
                        ));
                        assert(el_emission(
                            elements@[i as int],
                            *parent_name,
                            *details,
                            old(self).props@,
                            b0a,
                            b1a,
                        ));
                    }
                },
                Element::Text(text) => {
                    proof {
                        assert(budget_el(elements@[i as int]) == 1);
                    }
                    let name = self.generate_node_name("text", FieldKind::Node(NodeKind::Text));
                    let ghost mid = *self;
                    let init = Instr::CreateTextLiteral {
                        node: clone_node_name(&name),
                        text: text.clone(),
                    };
                    self.create_text_node(parent_name, init, name);
                    proof {
                        lemma_extends_push(mid.init@, self.init@.last());
                        lemma_extends_trans(old(self).init@, mid.init@, self.init@);
                        lemma_extends_trans(old(self).mount@, mid.mount@, self.mount@);
                        lemma_extends_trans(old(self).drop@, mid.drop@, self.drop@);
                        let b0a = el_sink_of(prev, prev_state);
                        let b1a = el_sink_of(*self, *state);
                        assert(b1a.init.take(b0a.init.len() as int) =~= b0a.init);
                        assert(b1a.mount.take(b0a.mount.len() as int) =~= b0a.mount);
                        if parent_name is Root {
                            assert(b1a.drop.take(b0a.drop.len() as int) =~= b0a.drop);
                        }
                        assert(el_emission(
                            elements@[i as int],
                            *parent_name,
                            *details,
                            old(self).props@,
                            b0a,
                            b1a,
                        ));
                    }
                },
                Element::Comment(comment) => {
                    proof {
                        assert(budget_el(elements@[i as int]) == 1);
                    }
                    let name = self.generate_node_name("text", FieldKind::Node(NodeKind::Text));
                    let ghost mid = *self;
                    let init = Instr::CreateCommentLiteral {
                        node: clone_node_name(&name),
                        text: comment.clone(),
                    };
                    self.create_text_node(parent_name, init, name);
                    proof {
                        lemma_extends_push(mid.init@, self.init@.last());
                        lemma_extends_trans(old(self).init@, mid.init@, self.init@);
                        lemma_extends_trans(old(self).mount@, mid.mount@, self.mount@);
                        lemma_extends_trans(old(self).drop@, mid.drop@, self.drop@);
                        let b0a = el_sink_of(prev, prev_state);
                        let b1a = el_sink_of(*self, *state);
                        assert(b1a.init.take(b0a.init.len() as int) =~= b0a.init);
                        assert(b1a.mount.take(b0a.mount.len() as int) =~= b0a.mount);
                        if parent_name is Root {
                            assert(b1a.drop.take(b0a.drop.len() as int) =~= b0a.drop);
                        }
                        assert(el_emission(
                            elements@[i as int],
                            *parent_name,
                            *details,
                            old(self).props@,
                            b0a,
                            b1a,
                        ));
                    }
                },
                Element::ExprElement(el_expr) => match el_expr {
                    ExprElement::Ident(ident) => {
                        proof {
                            assert(budget_el(elements@[i as int]) == 1);
                        }
                        let from_props = self.props_contain(ident.text.as_str());
                        if !from_props {
                            match find_state_index(details, ident) {
                                Some(_) => {},
                                None => {
                                    proof {
                                        if els_resolved(
                                            elements@,
                                            *details,
                                            old(self).props@,
                                        ) {
                                            lemma_els_resolved_index(
                                                elements@,
                                                i as int,
                                                *details,
                                                old(self).props@,
                                            );
                                            assert(false);
                                        }
                                    }
                                    return Err(
                                        Diag::new(
                                            ident.pos,
                                            String::from_str(
                                                "Variable is not declared in state's block.",
                                            ),
                                        ),
                                    );
                                },
                            }
                        }
                        let name = self.generate_node_name(
                            "text",
                            FieldKind::Node(NodeKind::Text),
                        );
                        let ghost mid = *self;
                        let init = Instr::CreateTextFromIdent {
                            node: clone_node_name(&name),
                            ident: clone_name(ident),
                            from_props,
                        };
                        let name = self.create_text_node(parent_name, init, name);
                        let ghost mid2 = *self;
                        self.update.push(
                            Instr::SetTextFromIdent {
                                node: name,
                                ident: clone_name(ident),
                                from_props,
                            },
                        );
                        proof {
                            lemma_extends_push(mid.init@, self.init@.last());
                            lemma_extends_trans(old(self).init@, mid.init@, self.init@);
                            lemma_extends_trans(old(self).mount@, mid.mount@, self.mount@);
                            lemma_extends_trans(old(self).drop@, mid.drop@, self.drop@);
                            lemma_extends_push(mid2.update@, self.update@.last());
                            lemma_extends_trans(old(self).update@, mid2.update@, self.update@);
                            assert(no_clear_added(mid2.update@, self.update@));
                            lemma_no_clear_trans(old(self).update@, mid2.update@, self.update@);
                            let b0a = el_sink_of(prev, prev_state);
                            let b1a = el_sink_of(*self, *state);
                            assert(b1a.init.take(b0a.init.len() as int) =~= b0a.init);
                            assert(b1a.mount.take(b0a.mount.len() as int) =~= b0a.mount);
                            assert(b1a.update.take(b0a.update.len() as int) =~= b0a.update);
                            if parent_name is Root {
                                assert(b1a.drop.take(b0a.drop.len() as int) =~= b0a.drop);
                            }
                            assert(el_emission(
                                elements@[i as int],
                                *parent_name,
                                *details,
                                old(self).props@,
                                b0a,
                                b1a,
                            ));
                        }
                    },
                    ExprElement::If { conditions } => {
                        if conditions.len() > 0 {
                            proof {
                                assert(el_unimpl(elements@[i as int]));
                                lemma_els_unimpl_index(elements@, i as int);
                            }
                            return Err(
                                Diag::new(
                                    crate::expr::expr_first_pos(&conditions[0].expr),
                                    String::from_str(
                                        "Conditional rendering is not implemented yet.",
                                    ),
                                ),
                            );
                        }
                        proof {
                            assert(el_sink_of(*self, *state) =~= el_sink_of(prev, prev_state));
                            assert(el_emission(
                                elements@[i as int],
                                *parent_name,
                                *details,
                                old(self).props@,
                                el_sink_of(prev, prev_state),
                                el_sink_of(*self, *state),
                            ));
                        }
                    },
                    ExprElement::For { pat, expr, children } => {
                        proof {
                            if pat is Ident {
                                assert(budget_el(elements@[i as int]) == 3 + budget_els(
                                    children@,
                                ));
                            }
                        }
                        let fl_result = self.generate_for_loop(
                            parent_name,
                            details,
                            pat,
                            expr,
                            children,
                            state,
                            lookups,
                        );
                        proof {
                            lemma_extends_trans(old(self).init@, prev.init@, self.init@);
                            lemma_extends_trans(old(self).mount@, prev.mount@, self.mount@);
                            lemma_extends_trans(
                                old(self).mount_mounted@,
                                prev.mount_mounted@,
                                self.mount_mounted@,
                            );
                            lemma_extends_trans(old(self).update@, prev.update@, self.update@);
                            lemma_extends_trans(old(self).drop@, prev.drop@, self.drop@);
                            lemma_no_clear_trans(old(self).update@, prev.update@, self.update@);
                            lemma_state_extends_trans(*old(state), prev_state, *state);
                        }
                        match fl_result {
                            Ok(_) => {},
                            Err(d) => {
                                proof {
                                    assert(pat is Ident);
                                    assert(el_has_loop(elements@[i as int]));
                                    lemma_els_has_loop_index(elements@, i as int);
                                }
                                return Err(d);
                            },
                        }
                        proof {
                            if pat is Other {
                                assert(el_sink_of(*self, *state) =~= el_sink_of(
                                    prev,
                                    prev_state,
                                ));
                            }
                            assert(el_emission(
                                elements@[i as int],
                                *parent_name,
                                *details,
                                old(self).props@,
                                el_sink_of(prev, prev_state),
                                el_sink_of(*self, *state),
                            ));
                        }
                    },
                    _ => {
                        proof {
                            assert(el_sink_of(*self, *state) =~= el_sink_of(prev, prev_state));
                            assert(el_emission(
                                elements@[i as int],
                                *parent_name,
                                *details,
                                old(self).props@,
                                el_sink_of(prev, prev_state),
                                el_sink_of(*self, *state),
                            ));
                        }
                    },
                },
            }
            proof {
                assert forall|j: int| 0 <= j < i + 1 implies !el_unimpl(
                    #[trigger] elements@[j],
                ) by {}
                lemma_els_emitted_snoc(
                    elements@.take(i as int),
                    elements@[i as int],
                    *parent_name,
                    *details,
                    old(self).props@,
                    el_sink_of(*old(self), *old(state)),
                    el_sink_of(prev, prev_state),
                    el_sink_of(*self, *state),
                );
                assert(elements@.take(i + 1) =~= elements@.take(i as int).push(
                    elements@[i as int],
                ));
            }
            i = i + 1;
        }
        proof {
            lemma_els_unimpl_none(elements@);
            assert(elements@.take(elements@.len() as int) =~= elements@);
        }
        Ok(())
    }

    /// Compiles one whole scope: an appending scope appends to the mount
    /// target and ends its update pass by clearing the changed-identifier
    /// set; a non-appending scope (a loop body) resolves the target's
    /// parent first and inserts itself before the target. Success is owed
    /// whenever no construct is an unimplemented one, every identifier
    /// the scope itself must resolve does, and no repeated section is
    /// present; with repeated sections it further depends on the supplied
    /// type-lookup table. On success the scope's buckets are exactly the
    /// element walk's emission from the scope's starting snapshot, with
    /// the one closing clear appended in an appending scope.
    pub fn generate(
        elements: &Vec<Element>,
        details: &LocalDetails,
        props: Vec<(String, String)>,
        state: &mut State,
        append_nodes: bool,
        lookups: &Vec<(String, Vec<PatBinding>)>,
    ) -> (r: Result<Dom, Diag>)
        requires
            budget_els(elements@) <= usize::MAX,
        ensures
            state_extends(*old(state), *final(state)),
            (!els_unimpl(elements@) && els_resolved(elements@, *details, props@) && !els_has_loop(
                elements@,
            )) ==> r is Ok,
            r matches Ok(dom) ==> {
                &&& dom.wf()
                &&& dom.props@ == props@
                &&& dom.append_nodes == append_nodes
                &&& !els_unimpl(elements@)
                &&& append_nodes ==> dom.update@.len() > 0 && dom.update@.last()
                    is ClearUpdatedIdents
                &&& append_nodes ==> forall|j: int|
                    0 <= j < dom.update@.len() - 1 ==> !((#[trigger] dom.update@[j])
                        is ClearUpdatedIdents)
                &&& !append_nodes ==> forall|j: int|
                    0 <= j < dom.update@.len() ==> !((#[trigger] dom.update@[j])
                        is ClearUpdatedIdents)
                &&& !append_nodes ==> dom.mount@.len() > 0 && dom.mount@[0] is BindParent
                &&& exists|bend: ElSink|
                    {
                        &&& #[trigger] sink_snapshot(bend)
                        &&& els_emitted(
                            elements@,
                            Target::Root,
                            *details,
                            props@,
                            scope_start(append_nodes, old(state).callbacks@),
                            bend,
                        )
                        &&& dom.init@ == bend.init
                        &&& dom.mount@ == bend.mount
                        &&& dom.mount_mounted@ == bend.once
                        &&& append_nodes ==> dom.update@ == bend.update.push(
                            Instr::ClearUpdatedIdents,
                        )
                        &&& !append_nodes ==> dom.update@ == bend.update
                        &&& dom.drop@ == bend.drop
                        &&& final(state).callbacks@ == bend.cbs
                        &&& dom.tag_count@ == bend.counts
                    }
            },
        decreases elements, 1nat,
    {
        let ghost cbs0 = old(state).callbacks@;
        let mut dom = Dom::default(props);
        if !append_nodes {
            dom.append_nodes = false;
            dom.mount.push(Instr::BindParent);
        }
        proof {
            assert(el_sink_of(dom, *state) =~= scope_start(append_nodes, cbs0));
        }
        match dom.generate_elements(&Target::Root, elements, details, state, lookups) {
            Ok(_) => {},
            Err(d) => {
                return Err(d);
            },
        }
        proof {
            assert(sink_snapshot(el_sink_of(dom, *state)));
        }
        let ghost bend = el_sink_of(dom, *state);
        if append_nodes {
            dom.update.push(Instr::ClearUpdatedIdents);
        } else {
            proof {
                assert(dom.mount@.take(1)[0] is BindParent);
                assert(dom.mount@[0] is BindParent);
            }
        }
        Ok(dom)
    }
}

/// Runs one emitted reconcile instruction against the runtime model: the
/// dependency gate and the positional walk of the `reconcile` module,
/// fed by the instruction's own dependency set. When none of the
/// instruction's dependencies changed, the units come back untouched
/// with an all-zero report; when one did, the result is the reconciled
/// collection.
pub fn run_loop_reconcile(
    instr: &Instr,
    changed: &Vec<String>,
    units: Vec<crate::reconcile::LoopUnit>,
    new_items: &Vec<crate::reconcile::Props>,
) -> (r: (Vec<crate::reconcile::LoopUnit>, crate::reconcile::ReconcileReport))
    requires
        instr is LoopReconcile,
    ensures
        instr matches Instr::LoopReconcile { deps, .. } ==> {
            &&& !(exists|n: Seq<char>|
                name_set(deps@).contains(n) && name_set(changed@).contains(
                    n,
                )) ==> r.0 == units && r.1 == (crate::reconcile::ReconcileReport {
                updated: 0,
                created: 0,
                removed: 0,
            })
            &&& (exists|n: Seq<char>|
                name_set(deps@).contains(n) && name_set(changed@).contains(
                    n,
                )) ==> crate::reconcile::reconciled(units@, new_items@, r.0@, r.1)
        },
{
    match instr {
        Instr::LoopReconcile { deps, .. } => crate::reconcile::update_loop(
            deps,
            changed,
            units,
            new_items,
        ),
        _ => {
            proof {
                assert(false);
            }
            (units, crate::reconcile::ReconcileReport { updated: 0, created: 0, removed: 0 })
        },
    }
}

/// The registration budget of a whole template, when it fits the
/// machine; a forest too large to number its nodes is reported instead
/// of compiled.
pub fn try_budget(els: &Vec<Element>) -> (r: Option<usize>)
    ensures
        r matches Some(b) ==> b == budget_els(els@),
        r is None ==> budget_els(els@) > usize::MAX,
    decreases els, 1nat,
{
    let mut total: usize = 0;
    let mut i: usize = 0;
    while i < els.len()
        invariant
            i <= els@.len(),
            total == budget_els(els@.take(i as int)),
            budget_els(els@.take(i as int)) <= usize::MAX,
        decreases els@.len() - i,
    {
        proof {
            lemma_budget_els_split(els@, i as int);
            assert(els@.take(i + 1).take(i as int) =~= els@.take(i as int));
            assert(els@.take(i + 1).skip(i as int) =~= seq![els@[i as int]]);
            lemma_budget_els_split(els@.take(i + 1), i as int);
            assert(budget_els(seq![els@[i as int]]) == budget_el(els@[i as int])) by {
                assert(seq![els@[i as int]].skip(1) =~= Seq::<Element>::empty());
                assert(budget_els(Seq::<Element>::empty()) == 0);
            };
        }
        let one: usize = match try_budget_el(&els[i]) {
            Some(b) => b,
            None => {
                proof {
                    assert(budget_els(els@.take(i + 1)) > usize::MAX);
                    lemma_budget_els_split(els@, i + 1);
                }
                return None;
            },
        };
        if total > usize::MAX - one {
            proof {
                assert(budget_els(els@.take(i + 1)) > usize::MAX);
                lemma_budget_els_split(els@, i + 1);
            }
            return None;
        }
        total = total + one;
        i = i + 1;
    }
    proof {
        assert(els@.take(els@.len() as int) =~= els@);
    }
    Some(total)
}

fn try_budget_el(e: &Element) -> (r: Option<usize>)
    ensures
        r matches Some(b) ==> b == budget_el(*e),
        r is None ==> budget_el(*e) > usize::MAX,
    decreases *e, 0nat,
{
    match e {
        Element::Classic(c) => {
            let inner = match try_budget(&c.children) {
                Some(b) => b,
                None => {
                    return None;
                },
            };
            if inner > usize::MAX - 1 {
                return None;
            }
            Some(1 + inner)
        },
        Element::Text(_) => Some(1),
        Element::Comment(_) => Some(1),
        Element::ExprElement(x) => match x {
            ExprElement::Ident(_) => Some(1),
            ExprElement::For { pat, children, .. } => match pat {
                ForPat::Ident(_) => {
                    let inner = match try_budget(children) {
                        Some(b) => b,
                        None => {
                            return None;
                        },
                    };
                    if inner > usize::MAX - 3 {
                        return None;
                    }
                    Some(3 + inner)
                },
                ForPat::Other(_) => Some(0),
            },
            _ => Some(0),
        },
    }
}

/// The type-lookup snippets of every compilable loop in the tree, in
/// document order, for the caller to resolve before generation.
pub fn collect_loop_snippets(elements: &Vec<Element>, details: &LocalDetails) -> Vec<String>
    decreases elements,
{
    let mut out: Vec<String> = Vec::new();
    let mut i: usize = 0;
    while i < elements.len()
        decreases elements@.len() - i,
    {
        match &elements[i] {
            Element::Classic(c) => {
                let mut inner = collect_loop_snippets(&c.children, details);
                out.append(&mut inner);
            },
            Element::ExprElement(x) => match x {
                ExprElement::For { pat, expr, children } => {
                    match pat {
                        ForPat::Ident(n) => {
                            out.push(loop_snippet(details, n, expr));
                        },
                        ForPat::Other(_) => {},
                    }
                    let mut inner = collect_loop_snippets(children, details);
                    out.append(&mut inner);
                },
                ExprElement::If { conditions } => {
                    let mut inner = collect_cond_snippets(conditions, details);
                    out.append(&mut inner);
                },
                _ => {},
            },
            _ => {},
        }
        i = i + 1;
    }
    out
}

/// The loop snippets inside an `if` chain's branches.
fn collect_cond_snippets(conditions: &Vec<crate::html::Condition>, details: &LocalDetails) -> Vec<
    String,
>
    decreases conditions,
{
    let mut out: Vec<String> = Vec::new();
    let mut ci: usize = 0;
    while ci < conditions.len()
        decreases conditions@.len() - ci,
    {
        let mut inner = collect_loop_snippets(&conditions[ci].children, details);
        out.append(&mut inner);
        ci = ci + 1;
    }
    out
}

} // verus!
