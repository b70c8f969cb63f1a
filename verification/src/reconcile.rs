//! Pure reconciliation: diff the roster against the engine's device set.
//!
//! Side-effect free; the engine applies the resulting plan.

use vstd::prelude::*;

use crate::idmap::IdMap;
use crate::roster::{DeviceRecordView, Id, Roster, RosterView};
use crate::text::str_eq;

verus! {

/// A set of device ids, kept in increasing order.
pub type IdSet = IdMap<()>;

/// What the engine must do to match the roster.
#[derive(Debug, Clone, PartialEq, Eq, Default)]
pub struct ReconcilePlan {
    /// `(device_id, name)` to add and share the folder with.
    pub to_add: Vec<(String, String)>,
    /// Device ids to remove (opt-in: only roster-tombstoned devices).
    pub to_remove: Vec<String>,
}

pub struct ReconcilePlanView {
    pub to_add: Seq<(Id, Seq<char>)>,
    pub to_remove: Seq<Id>,
}

impl View for ReconcilePlan {
    type V = ReconcilePlanView;

    open spec fn view(&self) -> ReconcilePlanView {
        ReconcilePlanView {
            to_add: self.to_add@.map_values(|p: (String, String)| (p.0@, p.1@)),
            to_remove: self.to_remove@.map_values(|s: String| s@),
        }
    }
}

impl ReconcilePlan {
    /// Nothing to add and nothing to remove.
    pub fn is_empty(&self) -> (r: bool)
        ensures
            r == (self.to_add.len() == 0 && self.to_remove.len() == 0),
    {
        self.to_add.len() == 0 && self.to_remove.len() == 0
    }
}

/// Active roster devices, taken from `ids` in order, that are not this device
/// and not yet known to the engine, paired with their names.
pub open spec fn planned_adds(ids: Seq<Id>, devices: Map<Id, DeviceRecordView>, engine: Map<Id, ()>, me: Id) -> Seq<(Id, Seq<char>)>
    decreases ids.len(),
{
    if ids.len() == 0 {
        Seq::empty()
    } else {
        let rest = planned_adds(ids.drop_last(), devices, engine, me);
        let id = ids.last();
        if id != me && !engine.contains_key(id) {
            rest.push((id, devices[id].name))
        } else {
            rest
        }
    }
}

/// Engine devices, taken from `ids` in order, that are not this device and
/// that the roster tombstones without listing them as active.
pub open spec fn planned_removes(ids: Seq<Id>, r: RosterView, me: Id) -> Seq<Id>
    decreases ids.len(),
{
    if ids.len() == 0 {
        Seq::empty()
    } else {
        let rest = planned_removes(ids.drop_last(), r, me);
        let id = ids.last();
        if id != me && r.removed.contains_key(id) && !r.devices.contains_key(id) {
            rest.push(id)
        } else {
            rest
        }
    }
}

/// Diffs `roster` against the engine's current device set.
///
/// - add: active roster devices missing from the engine (never self), in id
///   order;
/// - remove: engine devices the roster tombstones and does not re-list (never
///   self), in id order. A device merely absent from the roster is left alone,
///   so a peer that has not yet learned of it is not torn down.
pub fn reconcile(roster: &Roster, engine_ids: &IdSet, my_id: &str) -> (plan: ReconcilePlan)
    requires
        roster.wf(),
        engine_ids.wf(),
    ensures
        plan@.to_add == planned_adds(roster.devices.keys(), roster@.devices, engine_ids@, my_id@),
        plan@.to_remove == planned_removes(engine_ids.keys(), roster@, my_id@),
{
    proof {
        roster.devices.lemma_view();
        engine_ids.lemma_view();
    }
    let ghost r = roster@;
    let ghost dk = roster.devices.keys();
    let mut to_add: Vec<(String, String)> = Vec::new();
    let mut i: usize = 0;
    while i < roster.devices.len()
        invariant
            roster.wf(),
            engine_ids.wf(),
            r == roster@,
            dk == roster.devices.keys(),
            i <= dk.len(),
            dk.len() == roster.devices.vals().len(),
            forall|j: int| 0 <= j < dk.len() ==> #[trigger] r.devices[dk[j]] == roster.devices.vals()[j],
            to_add@.map_values(|p: (String, String)| (p.0@, p.1@)) == planned_adds(dk.take(i as int), r.devices, engine_ids@, my_id@),
        decreases dk.len() - i,
    {
        let id = roster.devices.key_at(i);
        let rec = roster.devices.value_at(i);
        proof {
            assert(dk.take(i + 1).drop_last() =~= dk.take(i as int));
            assert(dk.take(i + 1).last() == dk[i as int]);
            assert(r.devices[dk[i as int]] == roster.devices.vals()[i as int]);
        }
        if !str_eq(id.as_str(), my_id) && !engine_ids.contains_key(id.as_str()) {
            to_add.push((id.clone(), rec.name.clone()));
        }
        proof {
            assert(to_add@.map_values(|p: (String, String)| (p.0@, p.1@)) =~= planned_adds(dk.take(i + 1), r.devices, engine_ids@, my_id@));
        }
        i = i + 1;
    }
    proof {
        assert(dk.take(dk.len() as int) =~= dk);
    }
    let ghost ek = engine_ids.keys();
    let mut to_remove: Vec<String> = Vec::new();
    let mut j: usize = 0;
    while j < engine_ids.len()
        invariant
            roster.wf(),
            engine_ids.wf(),
            r == roster@,
            ek == engine_ids.keys(),
            j <= ek.len(),
            to_remove@.map_values(|s: String| s@) == planned_removes(ek.take(j as int), r, my_id@),
        decreases ek.len() - j,
    {
        let id = engine_ids.key_at(j);
        proof {
            assert(ek.take(j + 1).drop_last() =~= ek.take(j as int));
            assert(ek.take(j + 1).last() == ek[j as int]);
        }
        if !str_eq(id.as_str(), my_id) && roster.removed.contains_key(id.as_str()) && !roster.devices.contains_key(id.as_str()) {
            to_remove.push(id.clone());
        }
        proof {
            assert(to_remove@.map_values(|s: String| s@) =~= planned_removes(ek.take(j + 1), r, my_id@));
        }
        j = j + 1;
    }
    proof {
        assert(ek.take(ek.len() as int) =~= ek);
    }
    ReconcilePlan { to_add, to_remove }
}

/// A reconcile plan never adds or removes this device; it adds only active
/// roster devices unknown to the engine, and removes only engine devices the
/// roster tombstones without re-listing them.
pub proof fn law_reconcile_plan_is_safe(ids: Seq<Id>, r: RosterView, engine: Map<Id, ()>, engine_ids: Seq<Id>, me: Id)
    ensures
        forall|i: int| 0 <= i < planned_adds(ids, r.devices, engine, me).len() ==> {
            let e = #[trigger] planned_adds(ids, r.devices, engine, me)[i];
            &&& e.0 != me
            &&& !engine.contains_key(e.0)
            &&& ids.contains(e.0)
            &&& e.1 == r.devices[e.0].name
        },
        forall|i: int| 0 <= i < planned_removes(engine_ids, r, me).len() ==> {
            let id = #[trigger] planned_removes(engine_ids, r, me)[i];
            &&& id != me
            &&& r.removed.contains_key(id)
            &&& !r.devices.contains_key(id)
            &&& engine_ids.contains(id)
        },
    decreases ids.len() + engine_ids.len(),
{
    if ids.len() > 0 {
        law_reconcile_plan_is_safe(ids.drop_last(), r, engine, engine_ids, me);
        let prev = planned_adds(ids.drop_last(), r.devices, engine, me);
        assert forall|i: int| 0 <= i < planned_adds(ids, r.devices, engine, me).len() implies {
            let e = #[trigger] planned_adds(ids, r.devices, engine, me)[i];
            &&& e.0 != me
            &&& !engine.contains_key(e.0)
            &&& ids.contains(e.0)
            &&& e.1 == r.devices[e.0].name
        } by {
            if i < prev.len() {
                assert(planned_adds(ids, r.devices, engine, me)[i] == prev[i]);
                let e = prev[i];
                let k = choose|k: int| 0 <= k < ids.drop_last().len() && ids.drop_last()[k] == e.0;
                assert(ids[k] == e.0);
            } else {
                assert(ids[ids.len() - 1] == ids.last());
            }
        }
    }
    if engine_ids.len() > 0 {
        law_reconcile_plan_is_safe(ids, r, engine, engine_ids.drop_last(), me);
        let prev = planned_removes(engine_ids.drop_last(), r, me);
        assert forall|i: int| 0 <= i < planned_removes(engine_ids, r, me).len() implies {
            let id = #[trigger] planned_removes(engine_ids, r, me)[i];
            &&& id != me
            &&& r.removed.contains_key(id)
            &&& !r.devices.contains_key(id)
            &&& engine_ids.contains(id)
        } by {
            if i < prev.len() {
                assert(planned_removes(engine_ids, r, me)[i] == prev[i]);
                let id = prev[i];
                let k = choose|k: int| 0 <= k < engine_ids.drop_last().len() && engine_ids.drop_last()[k] == id;
                assert(engine_ids[k] == id);
            } else {
                assert(engine_ids[engine_ids.len() - 1] == engine_ids.last());
            }
        }
    }
}

/// A reconcile plan misses nothing: every active roster device other than
/// this one that the engine lacks is added under its roster name, and every
/// engine device other than this one that the roster tombstones without
/// re-listing is removed.
pub proof fn law_reconcile_plan_is_complete(ids: Seq<Id>, r: RosterView, engine: Map<Id, ()>, engine_ids: Seq<Id>, me: Id)
    ensures
        forall|i: int| 0 <= i < ids.len() && #[trigger] ids[i] != me && !engine.contains_key(ids[i])
            ==> planned_adds(ids, r.devices, engine, me).contains((ids[i], r.devices[ids[i]].name)),
        forall|i: int| 0 <= i < engine_ids.len() && #[trigger] engine_ids[i] != me && r.removed.contains_key(engine_ids[i])
            && !r.devices.contains_key(engine_ids[i]) ==> planned_removes(engine_ids, r, me).contains(engine_ids[i]),
    decreases ids.len() + engine_ids.len(),
{
    if ids.len() > 0 {
        law_reconcile_plan_is_complete(ids.drop_last(), r, engine, engine_ids, me);
        let prev = planned_adds(ids.drop_last(), r.devices, engine, me);
        let cur = planned_adds(ids, r.devices, engine, me);
        assert forall|i: int| 0 <= i < ids.len() && #[trigger] ids[i] != me && !engine.contains_key(ids[i])
            implies cur.contains((ids[i], r.devices[ids[i]].name)) by {
            if i < ids.len() - 1 {
                assert(ids.drop_last()[i] == ids[i]);
                let k = choose|k: int| 0 <= k < prev.len() && prev[k] == (ids[i], r.devices[ids[i]].name);
                assert(cur[k] == prev[k]);
            } else {
                assert(cur[cur.len() - 1] == (ids[i], r.devices[ids[i]].name));
            }
        }
    }
    if engine_ids.len() > 0 {
        law_reconcile_plan_is_complete(ids, r, engine, engine_ids.drop_last(), me);
        let prev = planned_removes(engine_ids.drop_last(), r, me);
        let cur = planned_removes(engine_ids, r, me);
        assert forall|i: int| 0 <= i < engine_ids.len() && #[trigger] engine_ids[i] != me && r.removed.contains_key(engine_ids[i])
            && !r.devices.contains_key(engine_ids[i]) implies cur.contains(engine_ids[i]) by {
            if i < engine_ids.len() - 1 {
                assert(engine_ids.drop_last()[i] == engine_ids[i]);
                let k = choose|k: int| 0 <= k < prev.len() && prev[k] == engine_ids[i];
                assert(cur[k] == prev[k]);
            } else {
                assert(cur[cur.len() - 1] == engine_ids[i]);
            }
        }
    }
}

} // verus!
