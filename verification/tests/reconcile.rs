use code_generator::expr::{Expr, Name};
use code_generator::reconcile::{
    mount_units, needs_update, reconcile, update_loop, LoopUnit, Props, ReconcileReport,
};
use code_generator::template::nodes::{run_loop_reconcile, Instr, NodeName};

fn props(pairs: &[(&str, &str)]) -> Props {
    Props {
        values: pairs.iter().map(|(k, v)| (k.to_string(), v.to_string())).collect(),
    }
}

fn items(n: usize) -> Vec<Props> {
    (0..n).map(|i| props(&[("item", &format!("v{}", i))])).collect()
}

/// A prior collection of length 5 against a new iterable of length 3:
/// reconciliation truncates from the third position and tears down
/// exactly the two removed units.
#[test]
fn shrink_truncates_and_tears_down_two() {
    let units = mount_units(&items(5));
    let (after, report) = reconcile(units, &items(3));
    assert_eq!(after.len(), 3);
    assert_eq!(report, ReconcileReport { updated: 3, created: 0, removed: 2 });
    // The surviving positions keep their unit identity.
    assert_eq!(after[0].id, 1);
    assert_eq!(after[1].id, 2);
    assert_eq!(after[2].id, 3);
}

/// A prior collection of length 3 against a new iterable of length 5:
/// exactly two fresh units are constructed and appended after the third
/// position.
#[test]
fn grow_appends_two() {
    let units = mount_units(&items(3));
    let (after, report) = reconcile(units, &items(5));
    assert_eq!(after.len(), 5);
    assert_eq!(report, ReconcileReport { updated: 3, created: 2, removed: 0 });
    assert_eq!(after[0].id, 1);
    assert_eq!(after[1].id, 2);
    assert_eq!(after[2].id, 3);
    // Fresh units continue the one-based count, so ids stay unique.
    assert_eq!(after[3].id, 4);
    assert_eq!(after[4].id, 5);
}

/// Common positions get the new props copied in.
#[test]
fn common_positions_get_new_props() {
    let units = mount_units(&vec![props(&[("item", "old")])]);
    let (after, _) = reconcile(units, &vec![props(&[("item", "new")])]);
    assert_eq!(after[0].props.values, vec![("item".to_string(), "new".to_string())]);
}

/// When the dependency set does not intersect the changed identifiers,
/// the update phase runs no reconciliation for the loop.
#[test]
fn disjoint_deps_leave_collection_untouched() {
    let deps = vec!["items".to_string()];
    let changed = vec!["name".to_string(), "counter".to_string()];
    assert!(!needs_update(&deps, &changed));
    let units = mount_units(&items(4));
    let (after, report) = update_loop(&deps, &changed, units, &items(2));
    assert_eq!(after.len(), 4);
    assert_eq!(report, ReconcileReport { updated: 0, created: 0, removed: 0 });
    for (i, unit) in after.iter().enumerate() {
        assert_eq!(unit.id, i + 1);
        assert_eq!(unit.props.values[0].1, format!("v{}", i));
    }
}

/// When the dependency set intersects the changed identifiers, the
/// positional walk runs.
#[test]
fn intersecting_deps_reconcile() {
    let deps = vec!["items".to_string()];
    let changed = vec!["items".to_string()];
    assert!(needs_update(&deps, &changed));
    let units = mount_units(&items(4));
    let (after, report) = update_loop(&deps, &changed, units, &items(2));
    assert_eq!(after.len(), 2);
    assert_eq!(report, ReconcileReport { updated: 2, created: 0, removed: 2 });
}

/// Mount constructs one unit per source item, ids counting from one.
#[test]
fn mount_ids_count_from_one() {
    let units: Vec<LoopUnit> = mount_units(&items(3));
    let ids: Vec<usize> = units.iter().map(|u| u.id).collect();
    assert_eq!(ids, vec![1, 2, 3]);
}

/// The emitted reconcile instruction runs the model: untouched when its
/// dependencies saw no change, reconciled when one did.
#[test]
fn loop_reconcile_instruction_runs_model() {
    let instr = Instr::LoopReconcile {
        name: NodeName { tag: "for_loop".to_string(), index: 1 },
        deps: vec!["items".to_string()],
        pat: Name { text: "item".to_string(), pos: 0 },
        iterable: Expr::Ident(Name { text: "items".to_string(), pos: 0 }),
        anchor: NodeName { tag: "empty".to_string(), index: 1 },
    };
    let units = mount_units(&vec![props(&[("item", "1")])]);
    // A disjoint change leaves the collection untouched.
    let (same, report) =
        run_loop_reconcile(&instr, &vec!["other".to_string()], units, &vec![
            props(&[("item", "2")]),
        ]);
    assert_eq!(same.len(), 1);
    assert_eq!(same[0].props.values, props(&[("item", "1")]).values);
    assert_eq!((report.updated, report.created, report.removed), (0, 0, 0));
    // A dependency change reconciles position by position.
    let units = mount_units(&vec![props(&[("item", "1")])]);
    let (next, report) =
        run_loop_reconcile(&instr, &vec!["items".to_string()], units, &vec![
            props(&[("item", "2")]),
        ]);
    assert_eq!(next.len(), 1);
    assert_eq!(next[0].props.values, props(&[("item", "2")]).values);
    assert_eq!((report.updated, report.created, report.removed), (1, 0, 0));
}
