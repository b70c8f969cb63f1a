use library::reconcile::{reconcile, IdSet};
use library::roster::{DeviceRecord, Roster};

fn roster_with(active: &[(&str, u64)], removed: &[(&str, u64)]) -> Roster {
    let mut r = Roster::new();
    for (id, ts) in active {
        r.devices.insert((*id).into(), DeviceRecord { name: format!("name-{id}"), added_at_ms: *ts });
    }
    for (id, ts) in removed {
        r.removed.insert((*id).into(), *ts);
    }
    r
}

fn ids(list: &[&str]) -> IdSet {
    let mut s: IdSet = IdSet::new();
    for id in list {
        s.insert(id.to_string(), ());
    }
    s
}

#[test]
fn adds_roster_devices_missing_from_engine() {
    let roster = roster_with(&[("SELF", 1), ("A", 1), ("B", 1)], &[]);
    let plan = reconcile(&roster, &ids(&["SELF"]), "SELF");
    let added: Vec<String> = plan.to_add.iter().map(|(id, _)| id.clone()).collect();
    assert_eq!(added, vec!["A".to_string(), "B".to_string()]);
    assert_eq!(plan.to_add[0].1, "name-A");
    assert!(plan.to_remove.is_empty());
}

#[test]
fn never_adds_or_removes_self() {
    let roster = roster_with(&[("SELF", 1)], &[("SELF", 9)]);
    let plan = reconcile(&roster, &ids(&["SELF"]), "SELF");
    assert!(plan.is_empty());
}

#[test]
fn removes_only_tombstoned_engine_devices() {
    let roster = roster_with(&[("SELF", 1)], &[("C", 5)]);
    let plan = reconcile(&roster, &ids(&["SELF", "C", "D"]), "SELF");
    assert_eq!(plan.to_remove, vec!["C".to_string()]);
    assert!(plan.to_add.is_empty(), "D absent-from-roster is left alone");
}

#[test]
fn no_op_when_engine_matches_roster() {
    let roster = roster_with(&[("SELF", 1), ("A", 1)], &[]);
    let plan = reconcile(&roster, &ids(&["SELF", "A"]), "SELF");
    assert!(plan.is_empty());
}

#[test]
fn relisted_device_is_not_removed() {
    let roster = roster_with(&[("SELF", 1), ("C", 7)], &[("C", 5)]);
    let plan = reconcile(&roster, &ids(&["SELF", "C"]), "SELF");
    assert!(plan.is_empty());
}
