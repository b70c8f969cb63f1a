//! App-managed device roster: the mesh membership list.
//!
//! Membership is a vector-clock CRDT. Each device id carries an *add context*
//! and a *remove context*; merge joins contexts pointwise, and a device is
//! present iff its add context strictly dominates its remove context
//! (remove-wins). The `devices`/`removed` maps are a derived view kept for
//! readers that only know the older schema.

use vstd::prelude::*;

use crate::idmap::{IdMap, MapValue};
use crate::text::{is_prefix, is_suffix, str_ends_with, str_starts_with, join_path, path_join, lemma_seq_lt_asymmetric, lemma_seq_lt_total, lemma_seq_lt_transitive, seq_lt, str_less};
use crate::vclock::{
    canonical, dominates, is_canonical, joined, vc_at, max_u64, strictly_dominates, vc_canon, vc_get, vc_join, vc_strictly_dominates,
    ClockView, VClock,
};

verus! {

/// A device id as a character sequence.
pub type Id = Seq<char>;

/// The entry stored under `k`, if any.
pub open spec fn entry_at<V>(m: Map<Id, V>, k: Id) -> Option<V> {
    if m.contains_key(k) {
        Some(m[k])
    } else {
        None
    }
}

/// The larger of two strings (the later one when they are equal).
pub open spec fn str_max(a: Seq<char>, b: Seq<char>) -> Seq<char> {
    if seq_lt(b, a) {
        a
    } else {
        b
    }
}

/// One device in the legacy compatibility view.
#[derive(Debug)]
pub struct DeviceRecord {
    pub name: String,
    pub added_at_ms: u64,
}

pub struct DeviceRecordView {
    pub name: Seq<char>,
    pub added_at_ms: u64,
}

impl View for DeviceRecord {
    type V = DeviceRecordView;

    open spec fn view(&self) -> DeviceRecordView {
        DeviceRecordView { name: self.name@, added_at_ms: self.added_at_ms }
    }
}

impl MapValue for DeviceRecord {
    open spec fn valid(&self) -> bool {
        true
    }

    fn same(&self, other: &DeviceRecord) -> (r: bool) {
        crate::text::str_eq(self.name.as_str(), other.name.as_str()) && self.added_at_ms == other.added_at_ms
    }

    fn duplicate(&self) -> (r: DeviceRecord) {
        DeviceRecord { name: self.name.clone(), added_at_ms: self.added_at_ms }
    }
}

/// Authoritative add stamp: causal context of the add plus advisory metadata.
#[derive(Debug)]
pub struct AddStamp {
    pub name: String,
    pub added_at_ms: u64,
    pub vc: VClock,
}

pub struct AddStampView {
    pub name: Seq<char>,
    pub added_at_ms: u64,
    pub vc: ClockView,
}

impl View for AddStamp {
    type V = AddStampView;

    open spec fn view(&self) -> AddStampView {
        AddStampView { name: self.name@, added_at_ms: self.added_at_ms, vc: self.vc@ }
    }
}

impl MapValue for AddStamp {
    open spec fn valid(&self) -> bool {
        self.vc.wf()
    }

    fn same(&self, other: &AddStamp) -> (r: bool) {
        crate::text::str_eq(self.name.as_str(), other.name.as_str()) && self.added_at_ms == other.added_at_ms
            && self.vc.same(&other.vc)
    }

    fn duplicate(&self) -> (r: AddStamp) {
        AddStamp { name: self.name.clone(), added_at_ms: self.added_at_ms, vc: self.vc.duplicate() }
    }
}

/// Authoritative remove stamp: causal context of the removal plus advisory ms.
#[derive(Debug)]
pub struct RemStamp {
    pub removed_at_ms: u64,
    pub vc: VClock,
}

pub struct RemStampView {
    pub removed_at_ms: u64,
    pub vc: ClockView,
}

impl View for RemStamp {
    type V = RemStampView;

    open spec fn view(&self) -> RemStampView {
        RemStampView { removed_at_ms: self.removed_at_ms, vc: self.vc@ }
    }
}

impl MapValue for RemStamp {
    open spec fn valid(&self) -> bool {
        self.vc.wf()
    }

    fn same(&self, other: &RemStamp) -> (r: bool) {
        self.removed_at_ms == other.removed_at_ms && self.vc.same(&other.vc)
    }

    fn duplicate(&self) -> (r: RemStamp) {
        RemStamp { removed_at_ms: self.removed_at_ms, vc: self.vc.duplicate() }
    }
}

/// The full mesh membership.
#[derive(Debug)]
pub struct Roster {
    /// Derived view: currently-present devices.
    pub devices: IdMap<DeviceRecord>,
    /// Derived view: tombstoned devices `deviceId -> removed_at_ms`.
    pub removed: IdMap<u64>,
    /// Authoritative add context per device.
    pub adds: IdMap<AddStamp>,
    /// Authoritative remove context per device.
    pub removes: IdMap<RemStamp>,
}

pub struct RosterView {
    pub devices: Map<Id, DeviceRecordView>,
    pub removed: Map<Id, u64>,
    pub adds: Map<Id, AddStampView>,
    pub removes: Map<Id, RemStampView>,
}

impl View for Roster {
    type V = RosterView;

    open spec fn view(&self) -> RosterView {
        RosterView {
            devices: self.devices@,
            removed: self.removed@,
            adds: self.adds@,
            removes: self.removes@,
        }
    }
}

/// Whether device `id` is a member of `r`: its add context strictly dominates
/// its remove context; two empty contexts (legacy data) fall back to comparing
/// the advisory timestamps.
pub open spec fn present(r: RosterView, id: Id) -> bool {
    if r.adds.contains_key(id) && r.removes.contains_key(id) {
        let a = r.adds[id];
        let rm = r.removes[id];
        if a.vc == Map::<Id, u64>::empty() && rm.vc == Map::<Id, u64>::empty() {
            a.added_at_ms >= rm.removed_at_ms
        } else {
            strictly_dominates(a.vc, rm.vc)
        }
    } else {
        r.adds.contains_key(id)
    }
}

/// `r` with its `devices`/`removed` view recomputed from `adds`/`removes`.
pub open spec fn with_view(r: RosterView) -> RosterView {
    RosterView {
        devices: Map::new(
            |id: Id| r.adds.contains_key(id) && present(r, id),
            |id: Id| DeviceRecordView { name: r.adds[id].name, added_at_ms: r.adds[id].added_at_ms },
        ),
        removed: Map::new(
            |id: Id| r.removes.contains_key(id) && !present(r, id),
            |id: Id| r.removes[id].removed_at_ms,
        ),
        adds: r.adds,
        removes: r.removes,
    }
}

/// The add stamp an old-schema device record stands for.
pub open spec fn seeded_add(d: DeviceRecordView) -> AddStampView {
    AddStampView { name: d.name, added_at_ms: d.added_at_ms, vc: Map::empty() }
}

/// `r` with every authoritative stamp seeded from the legacy view where it is
/// missing, every clock in canonical form, and the view rebuilt.
pub open spec fn normalized(r: RosterView) -> RosterView {
    with_view(
        RosterView {
            devices: r.devices,
            removed: r.removed,
            adds: Map::new(
                |id: Id| r.adds.contains_key(id) || r.devices.contains_key(id),
                |id: Id|
                    if r.adds.contains_key(id) {
                        AddStampView { vc: canonical(r.adds[id].vc), ..r.adds[id] }
                    } else {
                        seeded_add(r.devices[id])
                    },
            ),
            removes: Map::new(
                |id: Id| r.removes.contains_key(id) || r.removed.contains_key(id),
                |id: Id|
                    if r.removes.contains_key(id) {
                        RemStampView { vc: canonical(r.removes[id].vc), ..r.removes[id] }
                    } else {
                        RemStampView { removed_at_ms: r.removed[id], vc: Map::empty() }
                    },
            ),
        },
    )
}

/// Join of two add stamps (one may be absent): contexts joined pointwise,
/// advisory name and timestamp resolved by plain maximum.
pub open spec fn join_add_spec(a: Option<AddStampView>, b: Option<AddStampView>) -> AddStampView {
    match (a, b) {
        (Some(a), Some(b)) => AddStampView {
            name: str_max(a.name, b.name),
            added_at_ms: max_u64(a.added_at_ms, b.added_at_ms),
            vc: joined(a.vc, b.vc),
        },
        (Some(a), None) => a,
        (None, Some(b)) => b,
        (None, None) => AddStampView { name: Seq::empty(), added_at_ms: 0, vc: Map::empty() },
    }
}

/// Join of two remove stamps: contexts joined pointwise, advisory ms = max.
pub open spec fn join_rem_spec(a: Option<RemStampView>, b: Option<RemStampView>) -> RemStampView {
    match (a, b) {
        (Some(a), Some(b)) => RemStampView {
            removed_at_ms: max_u64(a.removed_at_ms, b.removed_at_ms),
            vc: joined(a.vc, b.vc),
        },
        (Some(a), None) => a,
        (None, Some(b)) => b,
        (None, None) => RemStampView { removed_at_ms: 0, vc: Map::empty() },
    }
}

/// Union-merge of two roster copies: both are normalized, then per device the
/// add and remove stamps are joined and the view is rebuilt.
pub open spec fn merged(x: RosterView, y: RosterView) -> RosterView {
    let a = normalized(x);
    let b = normalized(y);
    with_view(
        RosterView {
            devices: Map::empty(),
            removed: Map::empty(),
            adds: Map::new(
                |id: Id| a.adds.contains_key(id) || b.adds.contains_key(id),
                |id: Id| join_add_spec(entry_at(a.adds, id), entry_at(b.adds, id)),
            ),
            removes: Map::new(
                |id: Id| a.removes.contains_key(id) || b.removes.contains_key(id),
                |id: Id| join_rem_spec(entry_at(a.removes, id), entry_at(b.removes, id)),
            ),
        },
    )
}

/// The view of an empty roster.
pub open spec fn empty_roster() -> RosterView {
    RosterView {
        devices: Map::empty(),
        removed: Map::empty(),
        adds: Map::empty(),
        removes: Map::empty(),
    }
}

/// Every clock in `r` is canonical.
pub open spec fn clocks_canonical(r: RosterView) -> bool {
    &&& forall|id: Id| #[trigger] r.adds.contains_key(id) ==> is_canonical(r.adds[id].vc)
    &&& forall|id: Id| #[trigger] r.removes.contains_key(id) ==> is_canonical(r.removes[id].vc)
}

impl Roster {
    /// All four maps are well formed.
    pub open spec fn wf(&self) -> bool {
        &&& self.devices.wf()
        &&& self.removed.wf()
        &&& self.adds.wf()
        &&& self.removes.wf()
    }

    /// An empty roster.
    pub fn new() -> (r: Roster)
        ensures
            r.wf(),
            r@.devices == Map::<Id, DeviceRecordView>::empty(),
            r@.removed == Map::<Id, u64>::empty(),
            r@.adds == Map::<Id, AddStampView>::empty(),
            r@.removes == Map::<Id, RemStampView>::empty(),
    {
        Roster { devices: IdMap::new(), removed: IdMap::new(), adds: IdMap::new(), removes: IdMap::new() }
    }

    /// Whether a device is currently a member: its add context must strictly
    /// dominate its remove context (remove-wins on concurrency). When both
    /// contexts are empty (a pure-legacy record) the wall-clock rule applies.
    pub fn is_present(&self, id: &str) -> (r: bool)
        requires
            self.wf(),
        ensures
            r == present(self@, id@),
    {
        match self.adds.get(id) {
            None => false,
            Some(a) => match self.removes.get(id) {
                None => true,
                Some(rm) => {
                    if a.vc.is_empty() && rm.vc.is_empty() {
                        a.added_at_ms >= rm.removed_at_ms
                    } else {
                        vc_strictly_dominates(&a.vc, &rm.vc)
                    }
                },
            },
        }
    }

    /// Whether two rosters hold the same membership data.
    pub fn same(&self, other: &Roster) -> (r: bool)
        requires
            self.wf(),
            other.wf(),
        ensures
            r == (self@ == other@),
    {
        self.devices.same(&other.devices) && self.removed.same(&other.removed) && self.adds.same(&other.adds)
            && self.removes.same(&other.removes)
    }

    /// A copy of the roster.
    pub fn duplicate(&self) -> (r: Roster)
        requires
            self.wf(),
        ensures
            r.wf(),
            r@ == self@,
    {
        Roster {
            devices: self.devices.duplicate(),
            removed: self.removed.duplicate(),
            adds: self.adds.duplicate(),
            removes: self.removes.duplicate(),
        }
    }

    /// Seeds authoritative `adds`/`removes` from the legacy `devices`/`removed`
    /// view (with empty contexts) where they are missing, canonicalizes every
    /// clock, then rebuilds the derived view. Idempotent.
    pub fn normalize(&mut self)
        requires
            old(self).wf(),
        ensures
            final(self).wf(),
            final(self)@ == normalized(old(self)@),
    {
        let ghost r = self@;
        proof {
            self.devices.lemma_view();
            self.removed.lemma_view();
        }
        let mut i: usize = 0;
        while i < self.devices.len()
            invariant
                self.wf(),
                self@.devices == r.devices,
                self@.removed == r.removed,
                self@.removes == r.removes,
                i <= self.devices.keys().len(),
                self.devices.keys().len() == self.devices.vals().len(),
                forall|j: int| 0 <= j < self.devices.keys().len() ==> #[trigger] r.devices[self.devices.keys()[j]] == self.devices.vals()[j],
                self@.adds == Map::new(
                    |id: Id| r.adds.contains_key(id) || self.devices.keys().take(i as int).contains(id),
                    |id: Id| if r.adds.contains_key(id) { r.adds[id] } else { seeded_add(r.devices[id]) },
                ),
            decreases self.devices.keys().len() - i,
        {
            let id = self.devices.key_at(i);
            let rec = self.devices.value_at(i);
            let ghost ks = self.devices.keys();
            proof {
                crate::text::lemma_take_succ_contains(ks, i as int);
            }
            if !self.adds.contains_key(id.as_str()) {
                let stamp = AddStamp { name: rec.name.clone(), added_at_ms: rec.added_at_ms, vc: IdMap::new() };
                self.adds.insert(id.clone(), stamp);
            }
            proof {
                assert(r.devices[ks[i as int]] == self.devices.vals()[i as int]);
                assert(self@.adds =~= Map::new(
                    |id: Id| r.adds.contains_key(id) || ks.take(i + 1).contains(id),
                    |id: Id| if r.adds.contains_key(id) { r.adds[id] } else { seeded_add(r.devices[id]) },
                ));
            }
            i = i + 1;
        }
        proof {
            assert(self.devices.keys().take(self.devices.keys().len() as int) =~= self.devices.keys());
            self.devices.lemma_view();
            self.removed.lemma_view();
            assert(self@.adds =~= Map::new(
                |id: Id| r.adds.contains_key(id) || r.devices.contains_key(id),
                |id: Id| if r.adds.contains_key(id) { r.adds[id] } else { seeded_add(r.devices[id]) },
            ));
        }
        let mut i: usize = 0;
        while i < self.removed.len()
            invariant
                self.wf(),
                self@.devices == r.devices,
                self@.removed == r.removed,
                self@.adds == Map::new(
                    |id: Id| r.adds.contains_key(id) || r.devices.contains_key(id),
                    |id: Id| if r.adds.contains_key(id) { r.adds[id] } else { seeded_add(r.devices[id]) },
                ),
                i <= self.removed.keys().len(),
                self.removed.keys().len() == self.removed.vals().len(),
                forall|j: int| 0 <= j < self.removed.keys().len() ==> #[trigger] r.removed[self.removed.keys()[j]] == self.removed.vals()[j],
                self@.removes == Map::new(
                    |id: Id| r.removes.contains_key(id) || self.removed.keys().take(i as int).contains(id),
                    |id: Id| if r.removes.contains_key(id) { r.removes[id] } else { RemStampView { removed_at_ms: r.removed[id], vc: Map::empty() } },
                ),
            decreases self.removed.keys().len() - i,
        {
            let id = self.removed.key_at(i);
            let ms = *self.removed.value_at(i);
            let ghost ks = self.removed.keys();
            proof {
                crate::text::lemma_take_succ_contains(ks, i as int);
            }
            if !self.removes.contains_key(id.as_str()) {
                let stamp = RemStamp { removed_at_ms: ms, vc: IdMap::new() };
                self.removes.insert(id.clone(), stamp);
            }
            proof {
                assert(r.removed[ks[i as int]] == self.removed.vals()[i as int]);
                assert(self@.removes =~= Map::new(
                    |id: Id| r.removes.contains_key(id) || ks.take(i + 1).contains(id),
                    |id: Id| if r.removes.contains_key(id) { r.removes[id] } else { RemStampView { removed_at_ms: r.removed[id], vc: Map::empty() } },
                ));
            }
            i = i + 1;
        }
        proof {
            assert(self.removed.keys().take(self.removed.keys().len() as int) =~= self.removed.keys());
            assert forall|id: Id| r.removed.contains_key(id) <==> self.removed.keys().contains(id) by {
                self.removed.lemma_view();
            }
            assert(self@.removes =~= Map::new(
                |id: Id| r.removes.contains_key(id) || r.removed.contains_key(id),
                |id: Id| if r.removes.contains_key(id) { r.removes[id] } else { RemStampView { removed_at_ms: r.removed[id], vc: Map::empty() } },
            ));
        }
        let ghost seeded = self@;
        let adds = canon_adds(&self.adds);
        let removes = canon_removes(&self.removes);
        self.adds = adds;
        self.removes = removes;
        proof {
            assert(canonical(Map::<Id, u64>::empty()) =~= Map::<Id, u64>::empty());
            assert(self@.adds =~= normalized(r).adds);
            assert(self@.removes =~= normalized(r).removes);
        }
        self.rebuild_view();
        proof {
            assert(self@.devices =~= normalized(r).devices);
            assert(self@.removed =~= normalized(r).removed);
        }
    }

    /// The roster's causal context: the join of every add and remove context.
    /// The next local operation bumps this node's component of it.
    pub fn context(&self) -> (ctx: VClock)
        requires
            self.wf(),
        ensures
            ctx.wf(),
            is_context(self@, ctx@),
            ctx@ == context_of(self@),
    {
        let ghost r = self@;
        proof {
            self.adds.lemma_view();
            self.removes.lemma_view();
        }
        let mut ctx: VClock = IdMap::new();
        let mut i: usize = 0;
        while i < self.adds.len()
            invariant
                self.wf(),
                self@ == r,
                ctx.wf(),
                i <= self.adds.keys().len(),
                is_canonical(ctx@),
                forall|j: int| 0 <= j < i ==> dominates(ctx@, #[trigger] self.adds.vals()[j].vc),
                forall|k: Id| #[trigger] ctx@.contains_key(k) ==> exists|j: int|
                    0 <= j < i && #[trigger] vc_at(self.adds.vals()[j].vc, k) == ctx@[k],
            decreases self.adds.keys().len() - i,
        {
            let v = &self.adds.value_at(i).vc;
            let ghost prev = ctx@;
            ctx = vc_join(&ctx, v);
            proof {
                crate::vclock::lemma_canonical_facts(prev, v@);
                assert forall|j: int| 0 <= j < i + 1 implies dominates(ctx@, #[trigger] self.adds.vals()[j].vc) by {
                    if j < i {
                        assert(dominates(prev, self.adds.vals()[j].vc));
                    }
                }
                assert forall|k: Id| #[trigger] ctx@.contains_key(k) implies exists|j: int|
                    0 <= j < i + 1 && #[trigger] vc_at(self.adds.vals()[j].vc, k) == ctx@[k] by {
                    if vc_at(prev, k) >= vc_at(v@, k) {
                        assert(prev.contains_key(k));
                        let j = choose|j: int| 0 <= j < i && #[trigger] vc_at(self.adds.vals()[j].vc, k) == prev[k];
                        assert(vc_at(self.adds.vals()[j].vc, k) == ctx@[k]);
                    } else {
                        assert(vc_at(self.adds.vals()[i as int].vc, k) == ctx@[k]);
                    }
                }
            }
            i = i + 1;
        }
        let mut i: usize = 0;
        while i < self.removes.len()
            invariant
                self.wf(),
                self@ == r,
                ctx.wf(),
                i <= self.removes.keys().len(),
                is_canonical(ctx@),
                forall|j: int| 0 <= j < self.adds.keys().len() ==> dominates(ctx@, #[trigger] self.adds.vals()[j].vc),
                forall|j: int| 0 <= j < i ==> dominates(ctx@, #[trigger] self.removes.vals()[j].vc),
                forall|k: Id| #[trigger] ctx@.contains_key(k) ==>
                    (exists|j: int| 0 <= j < self.adds.keys().len() && #[trigger] vc_at(self.adds.vals()[j].vc, k) == ctx@[k])
                    || (exists|j: int| 0 <= j < i && #[trigger] vc_at(self.removes.vals()[j].vc, k) == ctx@[k]),
            decreases self.removes.keys().len() - i,
        {
            let v = &self.removes.value_at(i).vc;
            let ghost prev = ctx@;
            ctx = vc_join(&ctx, v);
            proof {
                crate::vclock::lemma_canonical_facts(prev, v@);
                assert forall|j: int| 0 <= j < self.adds.keys().len() implies dominates(ctx@, #[trigger] self.adds.vals()[j].vc) by {
                    assert(dominates(prev, self.adds.vals()[j].vc));
                }
                assert forall|j: int| 0 <= j < i + 1 implies dominates(ctx@, #[trigger] self.removes.vals()[j].vc) by {
                    if j < i {
                        assert(dominates(prev, self.removes.vals()[j].vc));
                    }
                }
                assert forall|k: Id| #[trigger] ctx@.contains_key(k) implies
                    (exists|j: int| 0 <= j < self.adds.keys().len() && #[trigger] vc_at(self.adds.vals()[j].vc, k) == ctx@[k])
                    || (exists|j: int| 0 <= j < i + 1 && #[trigger] vc_at(self.removes.vals()[j].vc, k) == ctx@[k]) by {
                    if vc_at(prev, k) >= vc_at(v@, k) {
                        assert(prev.contains_key(k));
                        if exists|j: int| 0 <= j < self.adds.keys().len() && #[trigger] vc_at(self.adds.vals()[j].vc, k) == prev[k] {
                            let j = choose|j: int| 0 <= j < self.adds.keys().len() && #[trigger] vc_at(self.adds.vals()[j].vc, k) == prev[k];
                            assert(vc_at(self.adds.vals()[j].vc, k) == ctx@[k]);
                        } else {
                            let j = choose|j: int| 0 <= j < i && #[trigger] vc_at(self.removes.vals()[j].vc, k) == prev[k];
                            assert(vc_at(self.removes.vals()[j].vc, k) == ctx@[k]);
                        }
                    } else {
                        assert(vc_at(self.removes.vals()[i as int].vc, k) == ctx@[k]);
                    }
                }
            }
            i = i + 1;
        }
        proof {
            self.adds.lemma_view();
            self.removes.lemma_view();
            assert forall|id: Id| #[trigger] r.adds.contains_key(id) implies dominates(ctx@, r.adds[id].vc) by {
                let j = choose|j: int| 0 <= j < self.adds.keys().len() && self.adds.keys()[j] == id;
                assert(r.adds[self.adds.keys()[j]] == self.adds.vals()[j]);
                assert(dominates(ctx@, self.adds.vals()[j].vc));
            }
            assert forall|id: Id| #[trigger] r.removes.contains_key(id) implies dominates(ctx@, r.removes[id].vc) by {
                let j = choose|j: int| 0 <= j < self.removes.keys().len() && self.removes.keys()[j] == id;
                assert(r.removes[self.removes.keys()[j]] == self.removes.vals()[j]);
                assert(dominates(ctx@, self.removes.vals()[j].vc));
            }
            assert forall|k: Id| #[trigger] ctx@.contains_key(k) implies exists|id: Id| #[trigger] attains(r, id, k, ctx@[k]) by {
                if exists|j: int| 0 <= j < self.adds.keys().len() && #[trigger] vc_at(self.adds.vals()[j].vc, k) == ctx@[k] {
                    let j = choose|j: int| 0 <= j < self.adds.keys().len() && #[trigger] vc_at(self.adds.vals()[j].vc, k) == ctx@[k];
                    let id = self.adds.keys()[j];
                    assert(r.adds[self.adds.keys()[j]] == self.adds.vals()[j]);
                    assert(self.adds.keys().contains(id));
                    assert(attains(r, id, k, ctx@[k]));
                } else {
                    let j = choose|j: int| 0 <= j < self.removes.keys().len() && #[trigger] vc_at(self.removes.vals()[j].vc, k) == ctx@[k];
                    let id = self.removes.keys()[j];
                    assert(r.removes[self.removes.keys()[j]] == self.removes.vals()[j]);
                    assert(self.removes.keys().contains(id));
                    assert(attains(r, id, k, ctx@[k]));
                }
            }
            assert(is_context(r, ctx@));
            lemma_context_unique(r, ctx@, context_of(r));
        }
        ctx
    }

    /// Union-merge of two roster copies. Per device, the add and remove
    /// contexts are joined pointwise; presence is then recomputed.
    /// Commutative, associative and idempotent (see the laws below).
    pub fn merge(&self, other: &Roster) -> (r: Roster)
        requires
            self.wf(),
            other.wf(),
        ensures
            r.wf(),
            r@ == merged(self@, other@),
    {
        let mut a = self.duplicate();
        a.normalize();
        let mut b = other.duplicate();
        b.normalize();
        let mut m = Roster::new();
        m.adds = join_all_adds(&a.adds, &b.adds);
        m.removes = join_all_removes(&a.removes, &b.removes);
        proof {
            assert(m@.adds =~= merged(self@, other@).adds);
            assert(m@.removes =~= merged(self@, other@).removes);
        }
        m.rebuild_view();
        proof {
            assert(m@.devices =~= merged(self@, other@).devices);
            assert(m@.removed =~= merged(self@, other@).removed);
        }
        m
    }

    /// Recomputes the legacy `devices`/`removed` view from `adds`/`removes`
    /// and the presence rule.
    pub fn rebuild_view(&mut self)
        requires
            old(self).wf(),
        ensures
            final(self).wf(),
            final(self)@ == with_view(old(self)@),
    {
        let mut devices: IdMap<DeviceRecord> = IdMap::new();
        let mut removed: IdMap<u64> = IdMap::new();
        proof {
            self.adds.lemma_view();
            self.removes.lemma_view();
        }
        let ghost r = self@;
        let mut i: usize = 0;
        while i < self.adds.len()
            invariant
                self.wf(),
                self@ == r,
                devices.wf(),
                removed.wf(),
                i <= self.adds.keys().len(),
                self.adds.keys().len() == self.adds.vals().len(),
                forall|j: int| 0 <= j < self.adds.keys().len() ==> #[trigger] r.adds[self.adds.keys()[j]] == self.adds.vals()[j],
                forall|k: Id| #[trigger] r.adds.contains_key(k) <==> self.adds.keys().contains(k),
                devices@ == Map::new(
                    |id: Id| self.adds.keys().take(i as int).contains(id) && present(r, id),
                    |id: Id| DeviceRecordView { name: r.adds[id].name, added_at_ms: r.adds[id].added_at_ms },
                ),
                removed@ == Map::new(
                    |id: Id| self.adds.keys().take(i as int).contains(id) && r.removes.contains_key(id) && !present(r, id),
                    |id: Id| r.removes[id].removed_at_ms,
                ),
            decreases self.adds.keys().len() - i,
        {
            let id = self.adds.key_at(i);
            let a = self.adds.value_at(i);
            let ghost ks = self.adds.keys();
            proof {
                crate::text::lemma_take_succ_contains(ks, i as int);
            }
            if self.is_present(id.as_str()) {
                devices.insert(id.clone(), DeviceRecord { name: a.name.clone(), added_at_ms: a.added_at_ms });
            } else {
                match self.removes.get(id.as_str()) {
                    Some(rm) => {
                        removed.insert(id.clone(), rm.removed_at_ms);
                    },
                    None => {},
                }
            }
            proof {
                assert(r.adds[ks[i as int]] == self.adds.vals()[i as int]);
                assert(devices@ =~= Map::new(
                    |id: Id| ks.take(i + 1).contains(id) && present(r, id),
                    |id: Id| DeviceRecordView { name: r.adds[id].name, added_at_ms: r.adds[id].added_at_ms },
                ));
                assert(removed@ =~= Map::new(
                    |id: Id| ks.take(i + 1).contains(id) && r.removes.contains_key(id) && !present(r, id),
                    |id: Id| r.removes[id].removed_at_ms,
                ));
            }
            i = i + 1;
        }
        proof {
            assert(self.adds.keys().take(self.adds.keys().len() as int) =~= self.adds.keys());
        }
        let mut j: usize = 0;
        while j < self.removes.len()
            invariant
                self.wf(),
                self@ == r,
                devices.wf(),
                removed.wf(),
                j <= self.removes.keys().len(),
                self.removes.keys().len() == self.removes.vals().len(),
                forall|m: int| 0 <= m < self.removes.keys().len() ==> #[trigger] r.removes[self.removes.keys()[m]] == self.removes.vals()[m],
                forall|k: Id| #[trigger] r.removes.contains_key(k) <==> self.removes.keys().contains(k),
                devices@ == with_view(r).devices,
                removed@ == Map::new(
                    |id: Id| (r.adds.contains_key(id) || self.removes.keys().take(j as int).contains(id)) && r.removes.contains_key(id) && !present(r, id),
                    |id: Id| r.removes[id].removed_at_ms,
                ),
            decreases self.removes.keys().len() - j,
        {
            let id = self.removes.key_at(j);
            let rm = self.removes.value_at(j);
            let ghost ks = self.removes.keys();
            proof {
                crate::text::lemma_take_succ_contains(ks, j as int);
            }
            if !self.adds.contains_key(id.as_str()) {
                removed.insert(id.clone(), rm.removed_at_ms);
            }
            proof {
                assert(r.removes[ks[j as int]] == self.removes.vals()[j as int]);
                assert(removed@ =~= Map::new(
                    |id: Id| (r.adds.contains_key(id) || ks.take(j + 1).contains(id)) && r.removes.contains_key(id) && !present(r, id),
                    |id: Id| r.removes[id].removed_at_ms,
                ));
            }
            j = j + 1;
        }
        proof {
            assert(self.removes.keys().take(self.removes.keys().len() as int) =~= self.removes.keys());
            assert(removed@ =~= with_view(r).removed);
        }
        self.devices = devices;
        self.removed = removed;
    }
}

/// `ctx` is the causal context of `r`: the least canonical clock that
/// dominates every add and remove context of `r`.
pub open spec fn is_context(r: RosterView, ctx: ClockView) -> bool {
    &&& is_canonical(ctx)
    &&& forall|id: Id| #[trigger] r.adds.contains_key(id) ==> dominates(ctx, r.adds[id].vc)
    &&& forall|id: Id| #[trigger] r.removes.contains_key(id) ==> dominates(ctx, r.removes[id].vc)
    &&& forall|k: Id| #[trigger] ctx.contains_key(k) ==> exists|id: Id| #[trigger] attains(r, id, k, ctx[k])
}

/// Device `id` has a stamp in `r` whose component `k` equals `v`.
pub open spec fn attains(r: RosterView, id: Id, k: Id, v: u64) -> bool {
    (r.adds.contains_key(id) && vc_at(r.adds[id].vc, k) == v)
    || (r.removes.contains_key(id) && vc_at(r.removes[id].vc, k) == v)
}

/// The causal context of `r` (the join of all its add and remove contexts).
pub open spec fn context_of(r: RosterView) -> ClockView {
    choose|ctx: ClockView| is_context(r, ctx)
}

/// `c` advanced by one tick in component `node`.
pub open spec fn bumped(c: ClockView, node: Id) -> ClockView {
    c.insert(node, (vc_at(c, node) + 1) as u64)
}

/// No stamp of `r` has exhausted the counter of `node`.
pub open spec fn counters_below_max(r: RosterView, node: Id) -> bool {
    &&& forall|id: Id| #[trigger] r.adds.contains_key(id) ==> vc_at(r.adds[id].vc, node) < u64::MAX
    &&& forall|id: Id| #[trigger] r.removes.contains_key(id) ==> vc_at(r.removes[id].vc, node) < u64::MAX
}

/// A roster has at most one causal context.
pub proof fn lemma_context_unique(r: RosterView, c1: ClockView, c2: ClockView)
    requires
        is_context(r, c1),
        is_context(r, c2),
    ensures
        c1 == c2,
{
    assert forall|k: Id| #[trigger] c1.contains_key(k) implies c2.contains_key(k) && c2[k] >= c1[k] by {
        let id = choose|id: Id| #[trigger] attains(r, id, k, c1[k]);
        if r.adds.contains_key(id) && vc_at(r.adds[id].vc, k) == c1[k] {
            assert(r.adds[id].vc.contains_key(k));
        } else {
            assert(r.removes[id].vc.contains_key(k));
        }
    }
    assert forall|k: Id| #[trigger] c2.contains_key(k) implies c1.contains_key(k) && c1[k] >= c2[k] by {
        let id = choose|id: Id| #[trigger] attains(r, id, k, c2[k]);
        if r.adds.contains_key(id) && vc_at(r.adds[id].vc, k) == c2[k] {
            assert(r.adds[id].vc.contains_key(k));
        } else {
            assert(r.removes[id].vc.contains_key(k));
        }
    }
    assert(c1 =~= c2);
}

/// `r` after this node (`node`) adds or refreshes device `id`.
pub open spec fn after_add(r: RosterView, node: Id, id: Id, name: Seq<char>, now_ms: u64) -> RosterView {
    with_view(
        RosterView {
            adds: r.adds.insert(
                id,
                AddStampView { name, added_at_ms: now_ms, vc: bumped(context_of(r), node) },
            ),
            ..r
        },
    )
}

/// `r` after this node (`node`) tombstones device `id`.
pub open spec fn after_remove(r: RosterView, node: Id, id: Id, now_ms: u64) -> RosterView {
    with_view(
        RosterView {
            removes: r.removes.insert(
                id,
                RemStampView { removed_at_ms: now_ms, vc: bumped(context_of(r), node) },
            ),
            ..r
        },
    )
}

/// Reads, merges and persists the roster file at
/// `<library_root>/.flts/devices.json`; owned by `node_id`, the vector-clock
/// component that local operations advance.
pub struct RosterStore {
    dir: String,
    path: String,
    node_id: String,
}

impl RosterStore {
    /// The directory holding the roster.
    pub closed spec fn dir_view(&self) -> Seq<char> {
        self.dir@
    }

    /// The roster file.
    pub closed spec fn path_view(&self) -> Seq<char> {
        self.path@
    }

    /// This node's device id.
    pub closed spec fn node_view(&self) -> Seq<char> {
        self.node_id@
    }

    /// Roster under `<library_root>/.flts/devices.json`, owned by `node_id`.
    pub fn new(library_root: &str, node_id: &str) -> (r: RosterStore)
        ensures
            r.dir_view() == path_join(library_root@, ".flts"@),
            r.path_view() == path_join(r.dir_view(), "devices.json"@),
            r.node_view() == node_id@,
    {
        let dir = join_path(library_root, ".flts");
        let path = join_path(dir.as_str(), "devices.json");
        RosterStore { dir, path, node_id: String::from_str(node_id) }
    }

    /// The directory holding the roster.
    pub fn dir(&self) -> (r: &str)
        ensures
            r@ == self.dir_view(),
    {
        self.dir.as_str()
    }

    /// The roster file.
    pub fn path(&self) -> (r: &str)
        ensures
            r@ == self.path_view(),
    {
        self.path.as_str()
    }

    /// This node's device id.
    pub fn node_id(&self) -> (r: &str)
        ensures
            r@ == self.node_view(),
    {
        self.node_id.as_str()
    }

    /// This node's causal context for `roster`, advanced by one local tick:
    /// the clock to stamp on the operation about to be issued.
    pub fn next_vc(&self, roster: &Roster) -> (vc: VClock)
        requires
            roster.wf(),
            counters_below_max(roster@, self.node_view()),
        ensures
            vc.wf(),
            is_context(roster@, context_of(roster@)),
            vc_at(context_of(roster@), self.node_view()) < u64::MAX,
            vc@ == bumped(context_of(roster@), self.node_view()),
    {
        let mut vc = roster.context();
        let c = vc_get(&vc, self.node_id.as_str());
        proof {
            if vc@.contains_key(self.node_view()) {
                let id = choose|id: Id| #[trigger] attains(roster@, id, self.node_view(), vc@[self.node_view()]);
            }
        }
        vc.insert(self.node_id.clone(), c + 1);
        vc
    }

    /// Adds or refreshes a device. The new add carries a context that
    /// dominates any tombstone it observed, so it wins (re-add works); other
    /// devices keep their membership.
    pub fn add_device(&self, roster: &Roster, device_id: &str, name: &str, now_ms: u64) -> (r: Roster)
        requires
            roster.wf(),
            counters_below_max(roster@, self.node_view()),
        ensures
            r.wf(),
            r@ == after_add(roster@, self.node_view(), device_id@, name@, now_ms),
            present(r@, device_id@),
            forall|other: Id| other != device_id@ ==> present(r@, other) == present(roster@, other),
    {
        let vc = self.next_vc(roster);
        let ghost ctx = context_of(roster@);
        let mut out = roster.duplicate();
        out.adds.insert(String::from_str(device_id), AddStamp { name: String::from_str(name), added_at_ms: now_ms, vc });
        out.rebuild_view();
        proof {
            let node = self.node_view();
            let id = device_id@;
            lemma_bumped_facts(ctx, node);
            if roster@.removes.contains_key(id) {
                let rm = roster@.removes[id].vc;
                assert(dominates(ctx, rm));
                assert(dominates(bumped(ctx, node), rm));
                if bumped(ctx, node) == rm {
                    assert(vc_at(rm, node) == vc_at(ctx, node) + 1);
                }
            }
            assert(bumped(ctx, node).contains_key(node));
        }
        out
    }
}

impl RosterStore {
    /// Whether this node can stamp a new operation on `roster`: no stamp has
    /// exhausted this node's counter.
    pub fn can_stamp(&self, roster: &Roster) -> (r: bool)
        requires
            roster.wf(),
        ensures
            r == counters_below_max(roster@, self.node_view()),
    {
        proof {
            roster.adds.lemma_view();
            roster.removes.lemma_view();
        }
        let mut i: usize = 0;
        while i < roster.adds.len()
            invariant
                roster.wf(),
                i <= roster.adds.keys().len(),
                roster.adds.keys().len() == roster.adds.vals().len(),
                forall|j: int| 0 <= j < roster.adds.keys().len() ==> #[trigger] roster@.adds[roster.adds.keys()[j]] == roster.adds.vals()[j],
                forall|k: Id| #[trigger] roster@.adds.contains_key(k) <==> roster.adds.keys().contains(k),
                forall|j: int| 0 <= j < i ==> vc_at(#[trigger] roster.adds.vals()[j].vc, self.node_view()) < u64::MAX,
            decreases roster.adds.keys().len() - i,
        {
            let a = roster.adds.value_at(i);
            if vc_get(&a.vc, self.node_id.as_str()) == u64::MAX {
                proof {
                    assert(roster@.adds.contains_key(roster.adds.keys()[i as int]));
                }
                return false;
            }
            i = i + 1;
        }
        let mut j: usize = 0;
        while j < roster.removes.len()
            invariant
                roster.wf(),
                j <= roster.removes.keys().len(),
                roster.removes.keys().len() == roster.removes.vals().len(),
                forall|m: int| 0 <= m < roster.removes.keys().len() ==> #[trigger] roster@.removes[roster.removes.keys()[m]] == roster.removes.vals()[m],
                forall|k: Id| #[trigger] roster@.removes.contains_key(k) <==> roster.removes.keys().contains(k),
                forall|m: int| 0 <= m < j ==> vc_at(#[trigger] roster.removes.vals()[m].vc, self.node_view()) < u64::MAX,
            decreases roster.removes.keys().len() - j,
        {
            let rm = roster.removes.value_at(j);
            if vc_get(&rm.vc, self.node_id.as_str()) == u64::MAX {
                proof {
                    assert(roster@.removes.contains_key(roster.removes.keys()[j as int]));
                }
                return false;
            }
            j = j + 1;
        }
        proof {
            assert forall|id: Id| #[trigger] roster@.adds.contains_key(id) implies vc_at(roster@.adds[id].vc, self.node_view()) < u64::MAX by {
                let k = choose|k: int| 0 <= k < roster.adds.keys().len() && roster.adds.keys()[k] == id;
                assert(roster@.adds[roster.adds.keys()[k]] == roster.adds.vals()[k]);
            }
            assert forall|id: Id| #[trigger] roster@.removes.contains_key(id) implies vc_at(roster@.removes[id].vc, self.node_view()) < u64::MAX by {
                let k = choose|k: int| 0 <= k < roster.removes.keys().len() && roster.removes.keys()[k] == id;
                assert(roster@.removes[roster.removes.keys()[k]] == roster.removes.vals()[k]);
            }
        }
        true
    }

    /// Tombstones a device (opt-in removal). The removal carries a context
    /// that dominates the add it observed, so the device is absent afterwards
    /// (remove-wins); other devices keep their membership.
    pub fn remove_device(&self, roster: &Roster, device_id: &str, now_ms: u64) -> (r: Roster)
        requires
            roster.wf(),
            counters_below_max(roster@, self.node_view()),
        ensures
            r.wf(),
            r@ == after_remove(roster@, self.node_view(), device_id@, now_ms),
            !present(r@, device_id@),
            forall|other: Id| other != device_id@ ==> present(r@, other) == present(roster@, other),
    {
        let vc = self.next_vc(roster);
        let ghost ctx = context_of(roster@);
        let mut out = roster.duplicate();
        out.removes.insert(String::from_str(device_id), RemStamp { removed_at_ms: now_ms, vc });
        out.rebuild_view();
        proof {
            let node = self.node_view();
            let id = device_id@;
            lemma_bumped_facts(ctx, node);
            if roster@.adds.contains_key(id) {
                let av = roster@.adds[id].vc;
                assert(dominates(ctx, av));
                if dominates(av, bumped(ctx, node)) {
                    assert(bumped(ctx, node).contains_key(node));
                    assert(vc_at(av, node) >= vc_at(ctx, node) + 1);
                    if av.contains_key(node) {
                        assert(vc_at(ctx, node) >= av[node]);
                    }
                }
            }
        }
        out
    }

    /// Ensures this device is listed so that peers learn about it: `None` when
    /// it is already active under `name` (nothing to write), otherwise the
    /// roster after (re-)adding it.
    pub fn ensure_self(&self, roster: &Roster, my_id: &str, name: &str, now_ms: u64) -> (r: Option<Roster>)
        requires
            roster.wf(),
            counters_below_max(roster@, self.node_view()),
        ensures
            (roster@.devices.contains_key(my_id@) && roster@.devices[my_id@].name == name@) ==> r is None,
            !(roster@.devices.contains_key(my_id@) && roster@.devices[my_id@].name == name@) ==> (r matches Some(x)
                && x.wf() && x@ == after_add(roster@, self.node_view(), my_id@, name@, now_ms)),
    {
        proof {
            roster.devices.lemma_view();
        }
        let needs_write = match roster.devices.get(my_id) {
            Some(rec) => !crate::text::str_eq(rec.name.as_str(), name),
            None => true,
        };
        if needs_write {
            Some(self.add_device(roster, my_id, name, now_ms))
        } else {
            None
        }
    }
}

/// `base` union-merged with each of `siblings` in turn.
pub open spec fn merged_all(base: RosterView, siblings: Seq<RosterView>) -> RosterView
    decreases siblings.len(),
{
    if siblings.len() == 0 {
        base
    } else {
        merged(merged_all(base, siblings.drop_last()), siblings.last())
    }
}

/// The views of a sequence of rosters.
pub open spec fn roster_views(rs: Seq<Roster>) -> Seq<RosterView> {
    rs.map_values(|r: Roster| r@)
}

/// The roster a load yields: the stored copy (an empty roster when there is
/// none) normalized, then union-merged with every conflict sibling in order.
pub fn merge_loaded(primary: Option<Roster>, siblings: &Vec<Roster>) -> (r: Roster)
    requires
        primary matches Some(p) ==> p.wf(),
        forall|i: int| 0 <= i < siblings.len() ==> #[trigger] siblings[i].wf(),
    ensures
        r.wf(),
        r@ == merged_all(
            normalized(
                match primary {
                    Some(p) => p@,
                    None => empty_roster(),
                },
            ),
            roster_views(siblings@),
        ),
{
    let mut roster = match primary {
        Some(p) => p,
        None => Roster::new(),
    };
    let ghost base0 = roster@;
    roster.normalize();
    let ghost base = roster@;
    let mut i: usize = 0;
    while i < siblings.len()
        invariant
            roster.wf(),
            i <= siblings.len(),
            forall|j: int| 0 <= j < siblings.len() ==> #[trigger] siblings[j].wf(),
            roster@ == merged_all(base, roster_views(siblings@).take(i as int)),
        decreases siblings.len() - i,
    {
        let next = roster.merge(&siblings[i]);
        proof {
            let vs = roster_views(siblings@);
            assert(vs.take(i + 1).drop_last() =~= vs.take(i as int));
            assert(vs.take(i + 1).last() == siblings@[i as int]@);
        }
        roster = next;
        i = i + 1;
    }
    proof {
        assert(roster_views(siblings@).take(siblings.len() as int) =~= roster_views(siblings@));
        assert(base0 == match primary {
            Some(p) => p@,
            None => empty_roster(),
        });
    }
    roster
}

/// Whether a file name in the roster directory is a conflict copy of the
/// roster: `devices.sync-conflict-*.json`.
pub fn is_conflict_sibling(name: &str) -> (r: bool)
    ensures
        r == (is_prefix("devices.sync-conflict-"@, name@) && is_suffix(".json"@, name@)),
{
    str_starts_with(name, "devices.sync-conflict-") && str_ends_with(name, ".json")
}

/// Facts about a clock bumped in one component.
proof fn lemma_bumped_facts(c: ClockView, node: Id)
    requires
        vc_at(c, node) < u64::MAX,
    ensures
        bumped(c, node).contains_key(node),
        bumped(c, node) != Map::<Id, u64>::empty(),
        forall|v: ClockView| dominates(c, v) ==> dominates(bumped(c, node), v),
        vc_at(bumped(c, node), node) == vc_at(c, node) + 1,
{
    assert(!Map::<Id, u64>::empty().contains_key(node));
}

/// `str_max(a, b)` is one of its arguments and sorts after neither.
proof fn lemma_str_max_facts(a: Seq<char>, b: Seq<char>)
    ensures
        str_max(a, b) == a || str_max(a, b) == b,
        !seq_lt(str_max(a, b), a),
        !seq_lt(str_max(a, b), b),
        str_max(a, b) == str_max(b, a),
{
    lemma_seq_lt_total(a, b);
    crate::text::lemma_seq_lt_irreflexive(a);
    crate::text::lemma_seq_lt_irreflexive(b);
    if seq_lt(b, a) {
        lemma_seq_lt_asymmetric(b, a);
    }
    if seq_lt(a, b) {
        lemma_seq_lt_asymmetric(a, b);
    }
}

/// "Not before" is transitive.
proof fn lemma_not_lt_transitive(x: Seq<char>, y: Seq<char>, z: Seq<char>)
    requires
        !seq_lt(x, y),
        !seq_lt(y, z),
    ensures
        !seq_lt(x, z),
{
    lemma_seq_lt_total(x, y);
    if seq_lt(x, z) && x != y {
        assert(seq_lt(y, x));
        lemma_seq_lt_transitive(y, x, z);
    }
}

/// `str_max` is associative.
proof fn lemma_str_max_associative(a: Seq<char>, b: Seq<char>, c: Seq<char>)
    ensures
        str_max(str_max(a, b), c) == str_max(a, str_max(b, c)),
{
    let ab = str_max(a, b);
    let l = str_max(ab, c);
    let bc = str_max(b, c);
    let r = str_max(a, bc);
    lemma_str_max_facts(a, b);
    lemma_str_max_facts(ab, c);
    lemma_str_max_facts(b, c);
    lemma_str_max_facts(a, bc);
    lemma_not_lt_transitive(l, ab, a);
    lemma_not_lt_transitive(l, ab, b);
    lemma_not_lt_transitive(r, bc, b);
    lemma_not_lt_transitive(r, bc, c);
    lemma_seq_lt_total(l, r);
}

/// Joining add stamps is commutative.
proof fn lemma_join_add_commutative(a: Option<AddStampView>, b: Option<AddStampView>)
    ensures
        join_add_spec(a, b) == join_add_spec(b, a),
{
    if let (Some(x), Some(y)) = (a, b) {
        lemma_str_max_facts(x.name, y.name);
        crate::vclock::lemma_joined_commutative(x.vc, y.vc);
    }
}

/// Joining remove stamps is commutative.
proof fn lemma_join_rem_commutative(a: Option<RemStampView>, b: Option<RemStampView>)
    ensures
        join_rem_spec(a, b) == join_rem_spec(b, a),
{
    if let (Some(x), Some(y)) = (a, b) {
        crate::vclock::lemma_joined_commutative(x.vc, y.vc);
    }
}

/// The optional join: absent when both sides are absent.
pub open spec fn join_add_opt(a: Option<AddStampView>, b: Option<AddStampView>) -> Option<AddStampView> {
    if a is None && b is None {
        None
    } else {
        Some(join_add_spec(a, b))
    }
}

/// The optional join of remove stamps.
pub open spec fn join_rem_opt(a: Option<RemStampView>, b: Option<RemStampView>) -> Option<RemStampView> {
    if a is None && b is None {
        None
    } else {
        Some(join_rem_spec(a, b))
    }
}

/// Joining add stamps is associative.
proof fn lemma_join_add_associative(a: Option<AddStampView>, b: Option<AddStampView>, c: Option<AddStampView>)
    ensures
        join_add_opt(join_add_opt(a, b), c) == join_add_opt(a, join_add_opt(b, c)),
{
    if let (Some(x), Some(y), Some(z)) = (a, b, c) {
        lemma_str_max_associative(x.name, y.name, z.name);
        crate::vclock::lemma_joined_associative(x.vc, y.vc, z.vc);
    }
}

/// Joining remove stamps is associative.
proof fn lemma_join_rem_associative(a: Option<RemStampView>, b: Option<RemStampView>, c: Option<RemStampView>)
    ensures
        join_rem_opt(join_rem_opt(a, b), c) == join_rem_opt(a, join_rem_opt(b, c)),
{
    if let (Some(x), Some(y), Some(z)) = (a, b, c) {
        crate::vclock::lemma_joined_associative(x.vc, y.vc, z.vc);
    }
}

/// A roster in normal form: canonical clocks and a consistent derived view.
pub open spec fn is_normal(r: RosterView) -> bool {
    clocks_canonical(r) && r == with_view(r)
}

/// Rebuilding the view twice is the same as once.
proof fn lemma_with_view_idempotent(r: RosterView)
    ensures
        with_view(with_view(r)) == with_view(r),
{
    assert(with_view(with_view(r)).devices =~= with_view(r).devices);
    assert(with_view(with_view(r)).removed =~= with_view(r).removed);
}

/// Normalizing leaves a roster in normal form.
pub proof fn lemma_normalized_is_normal(r: RosterView)
    ensures
        is_normal(normalized(r)),
{
    let n = normalized(r);
    assert forall|id: Id| #[trigger] n.adds.contains_key(id) implies is_canonical(n.adds[id].vc) by {
        if r.adds.contains_key(id) {
            crate::vclock::lemma_canonical_facts(r.adds[id].vc, r.adds[id].vc);
        }
    }
    assert forall|id: Id| #[trigger] n.removes.contains_key(id) implies is_canonical(n.removes[id].vc) by {
        if r.removes.contains_key(id) {
            crate::vclock::lemma_canonical_facts(r.removes[id].vc, r.removes[id].vc);
        }
    }
    lemma_with_view_idempotent(
        RosterView {
            devices: r.devices,
            removed: r.removed,
            adds: n.adds,
            removes: n.removes,
        },
    );
}

/// A roster already in normal form is unchanged by normalizing.
pub proof fn lemma_normal_fixed(r: RosterView)
    requires
        is_normal(r),
    ensures
        normalized(r) == r,
{
    let n = normalized(r);
    assert forall|id: Id| #[trigger] n.adds.contains_key(id) implies r.adds.contains_key(id) by {
        if r.devices.contains_key(id) {
            assert(with_view(r).devices.contains_key(id));
        }
    }
    assert forall|id: Id| #[trigger] n.removes.contains_key(id) implies r.removes.contains_key(id) by {
        if r.removed.contains_key(id) {
            assert(with_view(r).removed.contains_key(id));
        }
    }
    assert forall|id: Id| #[trigger] r.adds.contains_key(id) implies canonical(r.adds[id].vc) == r.adds[id].vc by {
        crate::vclock::lemma_canonical_facts(r.adds[id].vc, r.adds[id].vc);
    }
    assert forall|id: Id| #[trigger] r.removes.contains_key(id) implies canonical(r.removes[id].vc) == r.removes[id].vc by {
        crate::vclock::lemma_canonical_facts(r.removes[id].vc, r.removes[id].vc);
    }
    assert(n.adds =~= r.adds);
    assert(n.removes =~= r.removes);
    assert(n.devices =~= r.devices);
    assert(n.removed =~= r.removed);
}

/// A merge result is in normal form.
pub proof fn lemma_merged_is_normal(x: RosterView, y: RosterView)
    ensures
        is_normal(merged(x, y)),
{
    let a = normalized(x);
    let b = normalized(y);
    lemma_normalized_is_normal(x);
    lemma_normalized_is_normal(y);
    let m = merged(x, y);
    assert forall|id: Id| #[trigger] m.adds.contains_key(id) implies is_canonical(m.adds[id].vc) by {
        if a.adds.contains_key(id) && b.adds.contains_key(id) {
            crate::vclock::lemma_canonical_facts(a.adds[id].vc, b.adds[id].vc);
        }
    }
    assert forall|id: Id| #[trigger] m.removes.contains_key(id) implies is_canonical(m.removes[id].vc) by {
        if a.removes.contains_key(id) && b.removes.contains_key(id) {
            crate::vclock::lemma_canonical_facts(a.removes[id].vc, b.removes[id].vc);
        }
    }
    lemma_with_view_idempotent(
        RosterView {
            devices: Map::empty(),
            removed: Map::empty(),
            adds: m.adds,
            removes: m.removes,
        },
    );
}

/// `ctx` covers, in component `node`, the add stamp `r` holds for `id` once
/// normalized.
pub open spec fn add_covered(r: RosterView, id: Id, node: Id, ctx: ClockView) -> bool {
    normalized(r).adds.contains_key(id) ==> vc_at(normalized(r).adds[id].vc, node) <= vc_at(ctx, node)
}

/// The causal context of `r` has not exhausted the counter of `node`.
proof fn lemma_context_below_max(r: RosterView, node: Id)
    requires
        is_context(r, context_of(r)),
        counters_below_max(r, node),
    ensures
        vc_at(context_of(r), node) < u64::MAX,
{
    let ctx = context_of(r);
    if ctx.contains_key(node) {
        let w = choose|w: Id| #[trigger] attains(r, w, node, ctx[node]);
        assert(attains(r, w, node, ctx[node]));
    }
}

/// `r`'s own add stamp of `id` is covered by its causal context.
proof fn lemma_own_add_covered(r: RosterView, id: Id, node: Id)
    requires
        is_context(r, context_of(r)),
    ensures
        add_covered(r, id, node, context_of(r)),
{
    let ctx = context_of(r);
    if r.adds.contains_key(id) {
        assert(dominates(ctx, r.adds[id].vc));
        assert(normalized(r).adds[id].vc == canonical(r.adds[id].vc));
    }
}

/// Merged, in either order, with a copy whose add stamp of `id` the context
/// of `r` covers in the remover's component, a removal of `id` issued on `r`
/// keeps the device absent.
proof fn lemma_removal_survives_merge(
    r: RosterView,
    remover: Id,
    id: Id,
    removed_at_ms: u64,
    y: RosterView,
    first_removes: bool,
)
    requires
        is_context(r, context_of(r)),
        counters_below_max(r, remover),
        add_covered(y, id, remover, context_of(r)),
    ensures
        ({
            let x = after_remove(r, remover, id, removed_at_ms);
            !present(if first_removes { merged(x, y) } else { merged(y, x) }, id)
        }),
{
    let ctx = context_of(r);
    lemma_context_below_max(r, remover);
    lemma_own_add_covered(r, id, remover);
    let c1 = bumped(ctx, remover);
    lemma_bumped_facts(ctx, remover);
    let x = after_remove(r, remover, id, removed_at_ms);
    let nx = normalized(x);
    let ny = normalized(y);
    assert(nx.removes[id].vc == canonical(c1));
    assert(vc_at(canonical(c1), remover) == vc_at(c1, remover));
    if nx.adds.contains_key(id) {
        assert(r.adds.contains_key(id));
        assert(nx.adds[id].vc == normalized(r).adds[id].vc);
    }
    let m = if first_removes { merged(x, y) } else { merged(y, x) };
    assert(m.removes.contains_key(id));
    assert(vc_at(m.removes[id].vc, remover) >= vc_at(ctx, remover) + 1);
    assert(m.removes[id].vc.contains_key(remover));
    if m.adds.contains_key(id) {
        assert(vc_at(m.adds[id].vc, remover) <= vc_at(ctx, remover));
    }
}

/// Law (remove-wins): when one node tombstones a device while another node,
/// not having seen that removal, adds it again, both starting from the same
/// roster, the merged roster does not list the device, whichever copy is
/// merged into which. (`Roster::context` shows that every well-formed roster
/// has its causal context.)
pub proof fn law_concurrent_remove_wins(
    r: Roster,
    remover: Id,
    adder: Id,
    id: Id,
    name: Seq<char>,
    removed_at_ms: u64,
    added_at_ms: u64,
)
    requires
        r.wf(),
        is_context(r@, context_of(r@)),
        remover != adder,
        counters_below_max(r@, remover),
        counters_below_max(r@, adder),
    ensures
        !present(
            merged(after_remove(r@, remover, id, removed_at_ms), after_add(r@, adder, id, name, added_at_ms)),
            id,
        ),
        !present(
            merged(after_add(r@, adder, id, name, added_at_ms), after_remove(r@, remover, id, removed_at_ms)),
            id,
        ),
{
    let ctx = context_of(r@);
    lemma_context_below_max(r@, adder);
    lemma_bumped_facts(ctx, adder);
    let y = after_add(r@, adder, id, name, added_at_ms);
    assert(normalized(y).adds[id].vc == canonical(bumped(ctx, adder)));
    assert(vc_at(bumped(ctx, adder), remover) == vc_at(ctx, remover));
    assert(add_covered(y, id, remover, ctx));
    lemma_removal_survives_merge(r@, remover, id, removed_at_ms, y, true);
    lemma_removal_survives_merge(r@, remover, id, removed_at_ms, y, false);
}

/// Law (remove-wins): a removal stays in force when its roster is merged,
/// in either order, with the copy it was issued on, however stale.
pub proof fn law_observed_remove_wins(r: Roster, node: Id, id: Id, removed_at_ms: u64)
    requires
        r.wf(),
        is_context(r@, context_of(r@)),
        counters_below_max(r@, node),
    ensures
        !present(merged(after_remove(r@, node, id, removed_at_ms), r@), id),
        !present(merged(r@, after_remove(r@, node, id, removed_at_ms)), id),
{
    lemma_own_add_covered(r@, id, node);
    lemma_removal_survives_merge(r@, node, id, removed_at_ms, r@, true);
    lemma_removal_survives_merge(r@, node, id, removed_at_ms, r@, false);
}

/// Law: merging is commutative — `a.merge(b)` and `b.merge(a)` hold the same
/// roster.
pub proof fn law_merge_commutative(a: Roster, b: Roster)
    requires
        a.wf(),
        b.wf(),
    ensures
        merged(a@, b@) == merged(b@, a@),
{
    let x = normalized(a@);
    let y = normalized(b@);
    assert forall|id: Id| #![trigger entry_at(x.adds, id)] true implies join_add_spec(entry_at(x.adds, id), entry_at(y.adds, id))
        == join_add_spec(entry_at(y.adds, id), entry_at(x.adds, id)) by {
        lemma_join_add_commutative(entry_at(x.adds, id), entry_at(y.adds, id));
    }
    assert forall|id: Id| #![trigger entry_at(x.removes, id)] true implies join_rem_spec(entry_at(x.removes, id), entry_at(y.removes, id))
        == join_rem_spec(entry_at(y.removes, id), entry_at(x.removes, id)) by {
        lemma_join_rem_commutative(entry_at(x.removes, id), entry_at(y.removes, id));
    }
    assert(merged(a@, b@).adds =~= merged(b@, a@).adds);
    assert(merged(a@, b@).removes =~= merged(b@, a@).removes);
    assert(merged(a@, b@).devices =~= merged(b@, a@).devices);
    assert(merged(a@, b@).removed =~= merged(b@, a@).removed);
}

/// Law: merging is associative — `a.merge(b).merge(c)` and
/// `a.merge(b.merge(c))` hold the same roster.
pub proof fn law_merge_associative(a: Roster, b: Roster, c: Roster)
    requires
        a.wf(),
        b.wf(),
        c.wf(),
    ensures
        merged(merged(a@, b@), c@) == merged(a@, merged(b@, c@)),
{
    let x = normalized(a@);
    let y = normalized(b@);
    let z = normalized(c@);
    lemma_merged_is_normal(a@, b@);
    lemma_merged_is_normal(b@, c@);
    lemma_normal_fixed(merged(a@, b@));
    lemma_normal_fixed(merged(b@, c@));
    let ab = merged(a@, b@);
    let bc = merged(b@, c@);
    assert forall|id: Id| #![trigger entry_at(x.adds, id)] true implies entry_at(ab.adds, id) == join_add_opt(entry_at(x.adds, id), entry_at(y.adds, id))
        && entry_at(bc.adds, id) == join_add_opt(entry_at(y.adds, id), entry_at(z.adds, id))
        && join_add_opt(join_add_opt(entry_at(x.adds, id), entry_at(y.adds, id)), entry_at(z.adds, id))
            == join_add_opt(entry_at(x.adds, id), join_add_opt(entry_at(y.adds, id), entry_at(z.adds, id))) by {
        lemma_join_add_associative(entry_at(x.adds, id), entry_at(y.adds, id), entry_at(z.adds, id));
    }
    assert forall|id: Id| #![trigger entry_at(x.removes, id)] true implies entry_at(ab.removes, id) == join_rem_opt(entry_at(x.removes, id), entry_at(y.removes, id))
        && entry_at(bc.removes, id) == join_rem_opt(entry_at(y.removes, id), entry_at(z.removes, id))
        && join_rem_opt(join_rem_opt(entry_at(x.removes, id), entry_at(y.removes, id)), entry_at(z.removes, id))
            == join_rem_opt(entry_at(x.removes, id), join_rem_opt(entry_at(y.removes, id), entry_at(z.removes, id))) by {
        lemma_join_rem_associative(entry_at(x.removes, id), entry_at(y.removes, id), entry_at(z.removes, id));
    }
    let l = merged(ab, c@);
    let r = merged(a@, bc);
    assert forall|id: Id| l.adds.contains_key(id) <==> r.adds.contains_key(id) by {
        assert(entry_at(x.adds, id) == entry_at(x.adds, id));
    }
    assert forall|id: Id| #[trigger] l.adds.contains_key(id) implies l.adds[id] == r.adds[id] by {
        assert(entry_at(x.adds, id) == entry_at(x.adds, id));
    }
    assert forall|id: Id| l.removes.contains_key(id) <==> r.removes.contains_key(id) by {
        assert(entry_at(x.removes, id) == entry_at(x.removes, id));
    }
    assert forall|id: Id| #[trigger] l.removes.contains_key(id) implies l.removes[id] == r.removes[id] by {
        assert(entry_at(x.removes, id) == entry_at(x.removes, id));
    }
    assert(l.adds =~= r.adds);
    assert(l.removes =~= r.removes);
    assert(l.devices =~= r.devices);
    assert(l.removed =~= r.removed);
}

/// Law: merging a roster with itself is the same as merging it with an empty
/// roster (both yield its normal form).
pub proof fn law_merge_idempotent(a: Roster)
    requires
        a.wf(),
    ensures
        merged(a@, a@) == merged(a@, empty_roster()),
        merged(a@, a@) == normalized(a@),
{
    let x = normalized(a@);
    lemma_normalized_is_normal(a@);
    let e = normalized(empty_roster());
    assert(e.adds =~= Map::<Id, AddStampView>::empty());
    assert(e.removes =~= Map::<Id, RemStampView>::empty());
    assert forall|id: Id| #[trigger] x.adds.contains_key(id) implies join_add_spec(Some(x.adds[id]), Some(x.adds[id])) == x.adds[id] by {
        lemma_str_max_facts(x.adds[id].name, x.adds[id].name);
        crate::vclock::lemma_joined_self(x.adds[id].vc);
        crate::vclock::lemma_canonical_facts(x.adds[id].vc, x.adds[id].vc);
    }
    assert forall|id: Id| #[trigger] x.removes.contains_key(id) implies join_rem_spec(Some(x.removes[id]), Some(x.removes[id])) == x.removes[id] by {
        crate::vclock::lemma_joined_self(x.removes[id].vc);
        crate::vclock::lemma_canonical_facts(x.removes[id].vc, x.removes[id].vc);
    }
    let m1 = merged(a@, a@);
    let m2 = merged(a@, empty_roster());
    assert(m1.adds =~= x.adds);
    assert(m2.adds =~= x.adds);
    assert(m1.removes =~= x.removes);
    assert(m2.removes =~= x.removes);
    assert(m1.devices =~= x.devices);
    assert(m2.devices =~= x.devices);
    assert(m1.removed =~= x.removed);
    assert(m2.removed =~= x.removed);
}

/// Law: normalizing is idempotent.
pub proof fn law_normalize_idempotent(a: Roster)
    requires
        a.wf(),
    ensures
        normalized(normalized(a@)) == normalized(a@),
{
    lemma_normalized_is_normal(a@);
    lemma_normal_fixed(normalized(a@));
}

/// `adds` with every context canonicalized.
fn canon_adds(adds: &IdMap<AddStamp>) -> (r: IdMap<AddStamp>)
    requires
        adds.wf(),
    ensures
        r.wf(),
        r@ == Map::new(
            |id: Id| adds@.contains_key(id),
            |id: Id| AddStampView { vc: canonical(adds@[id].vc), ..adds@[id] },
        ),
{
    proof {
        adds.lemma_view();
    }
    let mut out: IdMap<AddStamp> = IdMap::new();
    let mut i: usize = 0;
    while i < adds.len()
        invariant
            adds.wf(),
            out.wf(),
            i <= adds.keys().len(),
            adds.keys().len() == adds.vals().len(),
            forall|j: int| 0 <= j < adds.keys().len() ==> #[trigger] adds@[adds.keys()[j]] == adds.vals()[j],
            out@ == Map::new(
                |id: Id| adds.keys().take(i as int).contains(id),
                |id: Id| AddStampView { vc: canonical(adds@[id].vc), ..adds@[id] },
            ),
        decreases adds.keys().len() - i,
    {
        let mut a = adds.value_at(i).duplicate();
        vc_canon(&mut a.vc);
        let ghost ks = adds.keys();
        proof {
            crate::text::lemma_take_succ_contains(ks, i as int);
            assert(adds@[ks[i as int]] == adds.vals()[i as int]);
        }
        out.insert(adds.key_at(i).clone(), a);
        proof {
            assert(out@ =~= Map::new(
                |id: Id| ks.take(i + 1).contains(id),
                |id: Id| AddStampView { vc: canonical(adds@[id].vc), ..adds@[id] },
            ));
        }
        i = i + 1;
    }
    proof {
        adds.lemma_view();
        assert(adds.keys().take(adds.keys().len() as int) =~= adds.keys());
        assert(out@ =~= Map::new(
            |id: Id| adds@.contains_key(id),
            |id: Id| AddStampView { vc: canonical(adds@[id].vc), ..adds@[id] },
        ));
    }
    out
}

/// `removes` with every context canonicalized.
fn canon_removes(removes: &IdMap<RemStamp>) -> (r: IdMap<RemStamp>)
    requires
        removes.wf(),
    ensures
        r.wf(),
        r@ == Map::new(
            |id: Id| removes@.contains_key(id),
            |id: Id| RemStampView { vc: canonical(removes@[id].vc), ..removes@[id] },
        ),
{
    proof {
        removes.lemma_view();
    }
    let mut out: IdMap<RemStamp> = IdMap::new();
    let mut i: usize = 0;
    while i < removes.len()
        invariant
            removes.wf(),
            out.wf(),
            i <= removes.keys().len(),
            removes.keys().len() == removes.vals().len(),
            forall|j: int| 0 <= j < removes.keys().len() ==> #[trigger] removes@[removes.keys()[j]] == removes.vals()[j],
            out@ == Map::new(
                |id: Id| removes.keys().take(i as int).contains(id),
                |id: Id| RemStampView { vc: canonical(removes@[id].vc), ..removes@[id] },
            ),
        decreases removes.keys().len() - i,
    {
        let mut a = removes.value_at(i).duplicate();
        vc_canon(&mut a.vc);
        let ghost ks = removes.keys();
        proof {
            crate::text::lemma_take_succ_contains(ks, i as int);
            assert(removes@[ks[i as int]] == removes.vals()[i as int]);
        }
        out.insert(removes.key_at(i).clone(), a);
        proof {
            assert(out@ =~= Map::new(
                |id: Id| ks.take(i + 1).contains(id),
                |id: Id| RemStampView { vc: canonical(removes@[id].vc), ..removes@[id] },
            ));
        }
        i = i + 1;
    }
    proof {
        removes.lemma_view();
        assert(removes.keys().take(removes.keys().len() as int) =~= removes.keys());
        assert(out@ =~= Map::new(
            |id: Id| removes@.contains_key(id),
            |id: Id| RemStampView { vc: canonical(removes@[id].vc), ..removes@[id] },
        ));
    }
    out
}

/// Joins two add stamps (one may be absent): the causal context is the
/// pointwise maximum; the advisory name and timestamp are resolved by plain
/// maximum.
pub fn join_add(a: Option<&AddStamp>, b: Option<&AddStamp>) -> (r: AddStamp)
    requires
        a matches Some(x) ==> x.vc.wf(),
        b matches Some(y) ==> y.vc.wf(),
    ensures
        r.vc.wf(),
        r@ == join_add_spec(
            match a { Some(x) => Some(x@), None => None },
            match b { Some(y) => Some(y@), None => None },
        ),
{
    match (a, b) {
        (Some(a), Some(b)) => {
            let name = if str_less(b.name.as_str(), a.name.as_str()) {
                a.name.clone()
            } else {
                b.name.clone()
            };
            let ms = if a.added_at_ms >= b.added_at_ms { a.added_at_ms } else { b.added_at_ms };
            AddStamp { name, added_at_ms: ms, vc: vc_join(&a.vc, &b.vc) }
        },
        (Some(a), None) => a.duplicate(),
        (None, Some(b)) => b.duplicate(),
        (None, None) => AddStamp { name: String::new(), added_at_ms: 0, vc: IdMap::new() },
    }
}

/// Joins two remove stamps: contexts joined pointwise, advisory ms = max.
pub fn join_rem(a: Option<&RemStamp>, b: Option<&RemStamp>) -> (r: RemStamp)
    requires
        a matches Some(x) ==> x.vc.wf(),
        b matches Some(y) ==> y.vc.wf(),
    ensures
        r.vc.wf(),
        r@ == join_rem_spec(
            match a { Some(x) => Some(x@), None => None },
            match b { Some(y) => Some(y@), None => None },
        ),
{
    match (a, b) {
        (Some(a), Some(b)) => {
            let ms = if a.removed_at_ms >= b.removed_at_ms { a.removed_at_ms } else { b.removed_at_ms };
            RemStamp { removed_at_ms: ms, vc: vc_join(&a.vc, &b.vc) }
        },
        (Some(a), None) => a.duplicate(),
        (None, Some(b)) => b.duplicate(),
        (None, None) => RemStamp { removed_at_ms: 0, vc: IdMap::new() },
    }
}

/// Per-device join of two add maps over the union of their ids.
fn join_all_adds(a: &IdMap<AddStamp>, b: &IdMap<AddStamp>) -> (r: IdMap<AddStamp>)
    requires
        a.wf(),
        b.wf(),
    ensures
        r.wf(),
        r@ == Map::new(
            |id: Id| a@.contains_key(id) || b@.contains_key(id),
            |id: Id| join_add_spec(entry_at(a@, id), entry_at(b@, id)),
        ),
{
    proof {
        a.lemma_view();
        b.lemma_view();
    }
    let mut out: IdMap<AddStamp> = IdMap::new();
    let mut i: usize = 0;
    while i < a.len()
        invariant
            a.wf(),
            b.wf(),
            out.wf(),
            i <= a.keys().len(),
            a.keys().len() == a.vals().len(),
            forall|j: int| 0 <= j < a.keys().len() ==> #[trigger] a@[a.keys()[j]] == a.vals()[j],
            out@ == Map::new(
                |id: Id| a.keys().take(i as int).contains(id),
                |id: Id| join_add_spec(entry_at(a@, id), entry_at(b@, id)),
            ),
        decreases a.keys().len() - i,
    {
        let id = a.key_at(i);
        let x = a.value_at(i);
        let y = b.get(id.as_str());
        let stamp = join_add(Some(x), y);
        let ghost ks = a.keys();
        proof {
            crate::text::lemma_take_succ_contains(ks, i as int);
            assert(a@[ks[i as int]] == a.vals()[i as int]);
            a.lemma_view();
            assert(ks.contains(ks[i as int]));
        }
        out.insert(id.clone(), stamp);
        proof {
            assert(out@ =~= Map::new(
                |id: Id| ks.take(i + 1).contains(id),
                |id: Id| join_add_spec(entry_at(a@, id), entry_at(b@, id)),
            ));
        }
        i = i + 1;
    }
    proof {
        assert(a.keys().take(a.keys().len() as int) =~= a.keys());
    }
    let mut j: usize = 0;
    while j < b.len()
        invariant
            a.wf(),
            b.wf(),
            out.wf(),
            j <= b.keys().len(),
            b.keys().len() == b.vals().len(),
            forall|m: int| 0 <= m < b.keys().len() ==> #[trigger] b@[b.keys()[m]] == b.vals()[m],
            forall|k: Id| #[trigger] a@.contains_key(k) <==> a.keys().contains(k),
            out@ == Map::new(
                |id: Id| a@.contains_key(id) || b.keys().take(j as int).contains(id),
                |id: Id| join_add_spec(entry_at(a@, id), entry_at(b@, id)),
            ),
        decreases b.keys().len() - j,
    {
        let id = b.key_at(j);
        let ghost ks = b.keys();
        proof {
            crate::text::lemma_take_succ_contains(ks, j as int);
            assert(b@[ks[j as int]] == b.vals()[j as int]);
            b.lemma_view();
            assert(ks.contains(ks[j as int]));
        }
        if !a.contains_key(id.as_str()) {
            let stamp = b.value_at(j).duplicate();
            out.insert(id.clone(), stamp);
        }
        proof {
            assert(out@ =~= Map::new(
                |id: Id| a@.contains_key(id) || ks.take(j + 1).contains(id),
                |id: Id| join_add_spec(entry_at(a@, id), entry_at(b@, id)),
            ));
        }
        j = j + 1;
    }
    proof {
        b.lemma_view();
        assert(b.keys().take(b.keys().len() as int) =~= b.keys());
        assert(out@ =~= Map::new(
            |id: Id| a@.contains_key(id) || b@.contains_key(id),
            |id: Id| join_add_spec(entry_at(a@, id), entry_at(b@, id)),
        ));
    }
    out
}

/// Per-device join of two remove maps over the union of their ids.
fn join_all_removes(a: &IdMap<RemStamp>, b: &IdMap<RemStamp>) -> (r: IdMap<RemStamp>)
    requires
        a.wf(),
        b.wf(),
    ensures
        r.wf(),
        r@ == Map::new(
            |id: Id| a@.contains_key(id) || b@.contains_key(id),
            |id: Id| join_rem_spec(entry_at(a@, id), entry_at(b@, id)),
        ),
{
    proof {
        a.lemma_view();
        b.lemma_view();
    }
    let mut out: IdMap<RemStamp> = IdMap::new();
    let mut i: usize = 0;
    while i < a.len()
        invariant
            a.wf(),
            b.wf(),
            out.wf(),
            i <= a.keys().len(),
            a.keys().len() == a.vals().len(),
            forall|j: int| 0 <= j < a.keys().len() ==> #[trigger] a@[a.keys()[j]] == a.vals()[j],
            out@ == Map::new(
                |id: Id| a.keys().take(i as int).contains(id),
                |id: Id| join_rem_spec(entry_at(a@, id), entry_at(b@, id)),
            ),
        decreases a.keys().len() - i,
    {
        let id = a.key_at(i);
        let x = a.value_at(i);
        let y = b.get(id.as_str());
        let stamp = join_rem(Some(x), y);
        let ghost ks = a.keys();
        proof {
            crate::text::lemma_take_succ_contains(ks, i as int);
            assert(a@[ks[i as int]] == a.vals()[i as int]);
            a.lemma_view();
            assert(ks.contains(ks[i as int]));
        }
        out.insert(id.clone(), stamp);
        proof {
            assert(out@ =~= Map::new(
                |id: Id| ks.take(i + 1).contains(id),
                |id: Id| join_rem_spec(entry_at(a@, id), entry_at(b@, id)),
            ));
        }
        i = i + 1;
    }
    proof {
        assert(a.keys().take(a.keys().len() as int) =~= a.keys());
    }
    let mut j: usize = 0;
    while j < b.len()
        invariant
            a.wf(),
            b.wf(),
            out.wf(),
            j <= b.keys().len(),
            b.keys().len() == b.vals().len(),
            forall|m: int| 0 <= m < b.keys().len() ==> #[trigger] b@[b.keys()[m]] == b.vals()[m],
            forall|k: Id| #[trigger] a@.contains_key(k) <==> a.keys().contains(k),
            out@ == Map::new(
                |id: Id| a@.contains_key(id) || b.keys().take(j as int).contains(id),
                |id: Id| join_rem_spec(entry_at(a@, id), entry_at(b@, id)),
            ),
        decreases b.keys().len() - j,
    {
        let id = b.key_at(j);
        let ghost ks = b.keys();
        proof {
            crate::text::lemma_take_succ_contains(ks, j as int);
            assert(b@[ks[j as int]] == b.vals()[j as int]);
            b.lemma_view();
            assert(ks.contains(ks[j as int]));
        }
        if !a.contains_key(id.as_str()) {
            let stamp = b.value_at(j).duplicate();
            out.insert(id.clone(), stamp);
        }
        proof {
            assert(out@ =~= Map::new(
                |id: Id| a@.contains_key(id) || ks.take(j + 1).contains(id),
                |id: Id| join_rem_spec(entry_at(a@, id), entry_at(b@, id)),
            ));
        }
        j = j + 1;
    }
    proof {
        b.lemma_view();
        assert(b.keys().take(b.keys().len() as int) =~= b.keys());
        assert(out@ =~= Map::new(
            |id: Id| a@.contains_key(id) || b@.contains_key(id),
            |id: Id| join_rem_spec(entry_at(a@, id), entry_at(b@, id)),
        ));
    }
    out
}

} // verus!
