//! The positional reconciliation executed by a loop's generated update
//! code.
//!
//! A repeated section keeps one child unit per iteration. On update, the
//! new iterable is walked against the existing collection by index, not by
//! key: positions present on both sides keep their unit and get the new
//! props copied in; positions present only in the new iterable get fresh
//! units appended; positions present only in the old collection are torn
//! down, truncating from the first excess index. Unit identity is tied to
//! position. The whole walk is gated: it runs only when the loop's
//! dependency set intersects the identifiers changed since the last pass.

use vstd::prelude::*;
use crate::visitor::ident::name_set;
use crate::visitor::ident::contains_name;

verus! {

/// The per-iteration props handed to a loop-body scope: the loop-bound
/// identifiers it references, each with its current value as text.
#[derive(Debug)]
pub struct Props {
    pub values: Vec<(String, String)>,
}

/// One mounted iteration of a repeated section.
#[derive(Debug)]
pub struct LoopUnit {
    pub id: usize,
    pub props: Props,
}

/// What one update pass did to a loop's collection.
#[derive(Debug, PartialEq, Eq, Structural)]
pub struct ReconcileReport {
    /// Positions present on both sides: props copied, child updated.
    pub updated: usize,
    /// Positions only in the new iterable: units constructed and appended.
    pub created: usize,
    /// Positions only in the old collection: units torn down.
    pub removed: usize,
}

/// Two props carry the same identifiers and values.
pub open spec fn props_match(a: Props, b: Props) -> bool {
    &&& a.values@.len() == b.values@.len()
    &&& forall|k: int| 0 <= k < a.values@.len() ==> (#[trigger] a.values@[k]).0@ == b.values@[k].0@
        && a.values@[k].1@ == b.values@[k].1@
}

/// The index-aligned walk's outcome: every position of the new iterable
/// is filled, common positions keep their unit's identity, fresh
/// positions get units whose ids continue the one-based count, and
/// nothing of the old collection survives past the new length.
pub open spec fn reconciled(
    old_units: Seq<LoopUnit>,
    new_items: Seq<Props>,
    out: Seq<LoopUnit>,
    rep: ReconcileReport,
) -> bool {
    &&& out.len() == new_items.len()
    &&& forall|i: int| 0 <= i < new_items.len() && i < old_units.len() ==> (#[trigger] out[i]).id
        == old_units[i].id && props_match(out[i].props, new_items[i])
    &&& forall|i: int| old_units.len() <= i < new_items.len() ==> (#[trigger] out[i]).id == i + 1
        && props_match(out[i].props, new_items[i])
    &&& rep.updated == if old_units.len() < new_items.len() {
        old_units.len()
    } else {
        new_items.len()
    }
    &&& rep.created == if old_units.len() < new_items.len() {
        new_items.len() - old_units.len()
    } else {
        0
    }
    &&& rep.removed == if old_units.len() > new_items.len() {
        old_units.len() - new_items.len()
    } else {
        0
    }
}

/// A copy of one props value, identifier for identifier.
pub fn clone_props(p: &Props) -> (r: Props)
    ensures
        props_match(r, *p),
{
    let mut values: Vec<(String, String)> = Vec::new();
    let mut i: usize = 0;
    while i < p.values.len()
        invariant
            i <= p.values@.len(),
            values@.len() == i,
            forall|k: int| 0 <= k < i ==> (#[trigger] values@[k]).0@ == p.values@[k].0@
                && values@[k].1@ == p.values@[k].1@,
        decreases p.values@.len() - i,
    {
        let pair = &p.values[i];
        values.push((pair.0.clone(), pair.1.clone()));
        i = i + 1;
    }
    Props { values }
}

/// The units a loop's mount phase constructs: one per source item, in
/// order, with the iteration counter (starting at one) as the stable
/// per-iteration id.
pub fn mount_units(items: &Vec<Props>) -> (r: Vec<LoopUnit>)
    ensures
        r@.len() == items@.len(),
        forall|i: int| 0 <= i < items@.len() ==> (#[trigger] r@[i]).id == i + 1 && props_match(
            r@[i].props,
            items@[i],
        ),
{
    let mut out: Vec<LoopUnit> = Vec::new();
    let mut i: usize = 0;
    while i < items.len()
        invariant
            i <= items@.len(),
            out@.len() == i,
            i <= usize::MAX,
            forall|j: int| 0 <= j < i ==> (#[trigger] out@[j]).id == j + 1 && props_match(
                out@[j].props,
                items@[j],
            ),
        decreases items@.len() - i,
    {
        out.push(LoopUnit { id: i + 1, props: clone_props(&items[i]) });
        i = i + 1;
    }
    out
}

/// One index-aligned reconciliation pass: positions on both sides have
/// the new props copied in, excess new positions are constructed and
/// appended, and an excess old tail is torn down by truncation.
pub fn reconcile(units: Vec<LoopUnit>, new_items: &Vec<Props>) -> (r: (
    Vec<LoopUnit>,
    ReconcileReport,
))
    ensures
        reconciled(units@, new_items@, r.0@, r.1),
{
    let mut out: Vec<LoopUnit> = Vec::new();
    let mut updated: usize = 0;
    let mut created: usize = 0;
    let mut i: usize = 0;
    while i < new_items.len()
        invariant
            i <= new_items@.len(),
            out@.len() == i,
            updated == if (i as int) < units@.len() {
                i as int
            } else {
                units@.len() as int
            },
            created == if (i as int) < units@.len() {
                0
            } else {
                i - units@.len()
            },
            forall|j: int| 0 <= j < i && j < units@.len() ==> (#[trigger] out@[j]).id
                == units@[j].id && props_match(out@[j].props, new_items@[j]),
            forall|j: int| units@.len() <= j < i ==> (#[trigger] out@[j]).id == j + 1
                && props_match(out@[j].props, new_items@[j]),
        decreases new_items@.len() - i,
    {
        if i < units.len() {
            out.push(LoopUnit { id: units[i].id, props: clone_props(&new_items[i]) });
            updated = updated + 1;
        } else {
            out.push(LoopUnit { id: i + 1, props: clone_props(&new_items[i]) });
            created = created + 1;
        }
        i = i + 1;
    }
    let removed = if units.len() > new_items.len() {
        units.len() - new_items.len()
    } else {
        0
    };
    (out, ReconcileReport { updated, created, removed })
}

/// Whether a loop's dependency set intersects the changed identifiers:
/// only then does its update phase reconcile at all.
pub fn needs_update(deps: &Vec<String>, changed: &Vec<String>) -> (r: bool)
    ensures
        r == exists|n: Seq<char>| name_set(deps@).contains(n) && name_set(changed@).contains(n),
{
    let mut i: usize = 0;
    while i < deps.len()
        invariant
            i <= deps@.len(),
            forall|j: int| 0 <= j < i ==> !name_set(changed@).contains((#[trigger] deps@[j])@),
        decreases deps@.len() - i,
    {
        if contains_name(changed, deps[i].as_str()) {
            proof {
                assert(name_set(deps@).contains(deps@[i as int]@));
            }
            return true;
        }
        i = i + 1;
    }
    proof {
        assert forall|n: Seq<char>|
            name_set(deps@).contains(n) implies !name_set(changed@).contains(n) by {
            let j = choose|j: int| 0 <= j < deps@.len() && (#[trigger] deps@[j])@ == n;
        }
    }
    false
}

/// One update pass for one loop: when the dependency set does not
/// intersect the changed-identifier set, no reconciliation happens and
/// the collection comes back untouched; otherwise the positional walk
/// runs.
pub fn update_loop(
    deps: &Vec<String>,
    changed: &Vec<String>,
    units: Vec<LoopUnit>,
    new_items: &Vec<Props>,
) -> (r: (Vec<LoopUnit>, ReconcileReport))
    ensures
        !(exists|n: Seq<char>| name_set(deps@).contains(n) && name_set(changed@).contains(n))
            ==> r.0 == units && r.1 == (ReconcileReport { updated: 0, created: 0, removed: 0 }),
        (exists|n: Seq<char>| name_set(deps@).contains(n) && name_set(changed@).contains(n))
            ==> reconciled(units@, new_items@, r.0@, r.1),
{
    if needs_update(deps, changed) {
        reconcile(units, new_items)
    } else {
        (units, ReconcileReport { updated: 0, created: 0, removed: 0 })
    }
}

} // verus!
