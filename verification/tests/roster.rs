use library::idmap::IdMap;
use library::roster::{
    is_conflict_sibling, merge_loaded, AddStamp, DeviceRecord, RemStamp, Roster, RosterStore,
};
use library::vclock::VClock;

fn vc(pairs: &[(&str, u64)]) -> VClock {
    let mut m: VClock = IdMap::new();
    for (k, v) in pairs {
        m.insert(k.to_string(), *v);
    }
    m
}

fn add(name: &str, ts: u64, v: VClock) -> AddStamp {
    AddStamp { name: name.into(), added_at_ms: ts, vc: v }
}

fn rem(ts: u64, v: VClock) -> RemStamp {
    RemStamp { removed_at_ms: ts, vc: v }
}

/// A roster holding a single device's add and/or remove stamp.
fn one(id: &str, a: Option<AddStamp>, r: Option<RemStamp>) -> Roster {
    let mut roster = Roster::new();
    if let Some(a) = a {
        roster.adds.insert(id.into(), a);
    }
    if let Some(r) = r {
        roster.removes.insert(id.into(), r);
    }
    roster.rebuild_view();
    roster
}

fn keys<V: library::idmap::MapValue>(m: &IdMap<V>) -> Vec<String> {
    (0..m.len()).map(|i| m.key_at(i).clone()).collect()
}

#[test]
fn merge_unions_present_devices() {
    let a = one("A", Some(add("a", 1, vc(&[("A", 1)]))), None)
        .merge(&one("B", Some(add("b", 1, vc(&[("B", 1)]))), None));
    let merged = a.merge(&one("C", Some(add("c", 1, vc(&[("C", 1)]))), None));
    assert_eq!(keys(&merged.devices), vec!["A", "B", "C"]);
    assert!(merged.removed.is_empty());
}

#[test]
fn dominant_remove_wins_despite_clock_skew() {
    let added = one("X", Some(add("x", 100, vc(&[("A", 1)]))), None);
    let removed = one("X", None, Some(rem(0, vc(&[("A", 1), ("B", 1)]))));
    let ab = added.merge(&removed);
    let ba = removed.merge(&added);
    assert!(ab.same(&ba), "merge is commutative");
    assert!(!ab.is_present("X"), "causally-later removal wins under skew");
    assert!(ab.removed.contains_key("X"));
}

#[test]
fn concurrent_add_and_remove_remove_wins() {
    let added = one("X", Some(add("x", 5, vc(&[("A", 1)]))), None);
    let removed = one("X", None, Some(rem(5, vc(&[("C", 1)]))));
    let m = added.merge(&removed);
    assert!(!m.is_present("X"), "remove-wins on concurrency");
}

#[test]
fn re_add_after_remove_resurrects() {
    let removed = one(
        "X",
        Some(add("x", 1, vc(&[("A", 1)]))),
        Some(rem(2, vc(&[("A", 1), ("B", 1)]))),
    );
    assert!(!removed.is_present("X"));
    let readd = one("X", Some(add("x", 3, vc(&[("A", 1), ("B", 2)]))), None);
    let m = removed.merge(&readd);
    assert!(m.is_present("X"), "causally-later re-add resurrects");
}

#[test]
fn legacy_json_deserializes_and_normalizes() {
    // The content of an old node's file: only devices/removed, no clocks.
    let mut roster = Roster::new();
    roster.devices.insert("A".into(), DeviceRecord { name: "alpha".into(), added_at_ms: 10 });
    roster.removed.insert("B".into(), 5);
    roster.normalize();
    assert!(roster.is_present("A"), "legacy active device stays present");
    assert!(!roster.is_present("B"), "legacy tombstone stays removed");
    assert!(roster.adds.get("A").unwrap().vc.is_empty(), "seeded with empty (legacy) vc");
}

#[test]
fn legacy_add_loses_to_new_remove() {
    let legacy_add = one("X", Some(add("x", 100, IdMap::new())), None);
    let new_remove = one("X", None, Some(rem(0, vc(&[("B", 1)]))));
    assert!(!legacy_add.merge(&new_remove).is_present("X"));
}

#[test]
fn load_merges_and_clears_conflict_siblings() {
    let store = RosterStore::new("/tmp/flts-roster", "SELF");
    let stored = store.add_device(&Roster::new(), "A", "alpha", 1);
    let other = one("B", Some(add("beta", 2, vc(&[("OTHER", 1)]))), None);
    assert!(is_conflict_sibling("devices.sync-conflict-20260530-120000-OTHER.json"));
    let merged = merge_loaded(Some(stored), &vec![other]);
    assert!(merged.devices.contains_key("A"));
    assert!(merged.devices.contains_key("B"), "sibling merged in");
}

#[test]
fn add_remove_readd_via_store_no_sleep() {
    let store = RosterStore::new("/tmp/flts-roster-rr", "SELF");
    let r = store.add_device(&merge_loaded(None, &vec![]), "P", "peer", 7);
    assert!(r.devices.contains_key("P"));
    let r = store.remove_device(&r, "P", 7);
    assert!(!r.devices.contains_key("P"));
    assert!(r.removed.contains_key("P"));
    let r = store.add_device(&r, "P", "peer", 7);
    assert!(r.devices.contains_key("P"), "re-add resurrects");
    assert!(!r.removed.contains_key("P"));
}

#[test]
fn new_node_op_restamps_legacy_entry() {
    let mut legacy = Roster::new();
    legacy.devices.insert("P".into(), DeviceRecord { name: "peer".into(), added_at_ms: 1 });
    let store = RosterStore::new("/tmp/flts-roster-heal", "SELF");
    let loaded = merge_loaded(Some(legacy), &vec![]);
    let r = store.remove_device(&loaded, "P", 2);
    assert!(!r.is_present("P"));
    assert!(!r.removes.get("P").unwrap().vc.is_empty(), "removal carries a real vc now");
}

#[test]
fn store_paths_and_node() {
    let store = RosterStore::new("/lib", "SELF");
    assert_eq!(store.dir(), "/lib/.flts");
    assert_eq!(store.path(), "/lib/.flts/devices.json");
    assert_eq!(store.node_id(), "SELF");
    let store = RosterStore::new("/lib/", "N");
    assert_eq!(store.path(), "/lib/.flts/devices.json");
}

#[test]
fn next_vc_bumps_own_component() {
    let store = RosterStore::new("/lib", "SELF");
    let r = one("X", Some(add("x", 1, vc(&[("A", 2), ("SELF", 3)]))), Some(rem(1, vc(&[("B", 4)]))));
    let v = store.next_vc(&r);
    assert_eq!(*v.get("A").unwrap(), 2);
    assert_eq!(*v.get("B").unwrap(), 4);
    assert_eq!(*v.get("SELF").unwrap(), 4);
    assert_eq!(v.len(), 3);
}

#[test]
fn ensure_self_writes_only_on_change() {
    let store = RosterStore::new("/lib", "ME");
    let r = store.ensure_self(&Roster::new(), "ME", "Laptop", 5).expect("first listing writes");
    assert!(r.is_present("ME"));
    assert!(store.ensure_self(&r, "ME", "Laptop", 6).is_none(), "already listed under that name");
    let renamed = store.ensure_self(&r, "ME", "Desk", 6).expect("rename writes");
    assert_eq!(renamed.devices.get("ME").unwrap().name, "Desk");
}

#[test]
fn conflict_sibling_names() {
    assert!(is_conflict_sibling("devices.sync-conflict-20260530-120000-ABC.json"));
    assert!(!is_conflict_sibling("devices.json"));
    assert!(!is_conflict_sibling("devices.sync-conflict-x.json~1"));
}

#[test]
fn merge_laws_on_examples() {
    let a = one("X", Some(add("x", 1, vc(&[("A", 1)]))), Some(rem(0, vc(&[("B", 2)]))));
    let b = one("Y", Some(add("y", 2, vc(&[("C", 1), ("A", 0)]))), None);
    let c = one("X", Some(add("z", 3, vc(&[("A", 2), ("B", 2)]))), None);
    assert!(a.merge(&b).same(&b.merge(&a)));
    assert!(a.merge(&b).merge(&c).same(&a.merge(&b.merge(&c))));
    assert!(a.merge(&a).same(&a.merge(&Roster::new())));
    assert!(a.merge(&b).merge(&c).is_present("X"));
}

#[test]
fn stamping_needs_counter_room() {
    let store = RosterStore::new("/lib", "SELF");
    let fresh = one("X", Some(add("x", 1, vc(&[("SELF", 5)]))), None);
    assert!(store.can_stamp(&fresh));
    let full = one("X", None, Some(rem(1, vc(&[("SELF", u64::MAX)]))));
    assert!(!store.can_stamp(&full));
}

#[test]
fn concurrent_remove_beats_concurrent_re_add_in_either_merge_order() {
    let a = RosterStore::new("/lib", "NODE-A");
    let b = RosterStore::new("/lib", "NODE-B");
    let base = a.add_device(&Roster::new(), "PEER", "Phone", 10);
    assert!(base.is_present("PEER"));
    let removed_on_a = a.remove_device(&base, "PEER", 20);
    let re_added_on_b = b.add_device(&base, "PEER", "Phone 2", 30);
    assert!(!removed_on_a.is_present("PEER"));
    assert!(re_added_on_b.is_present("PEER"));
    assert!(!removed_on_a.merge(&re_added_on_b).is_present("PEER"));
    assert!(!re_added_on_b.merge(&removed_on_a).is_present("PEER"));
    // Nor does merging with the stale copy the removal was issued on.
    assert!(!removed_on_a.merge(&base).is_present("PEER"));
    assert!(!base.merge(&removed_on_a).is_present("PEER"));
    // An add that has seen the removal brings the device back.
    let merged = removed_on_a.merge(&re_added_on_b);
    let revived = b.add_device(&merged, "PEER", "Phone 3", 40);
    assert!(revived.is_present("PEER"));
    assert!(revived.merge(&removed_on_a).is_present("PEER"));
}
