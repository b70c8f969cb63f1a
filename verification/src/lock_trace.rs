//! The lock-event log a traced run records for model checking: which task
//! acquired or released which lock, when, and which task held every lock at
//! that moment.

use vstd::prelude::*;

use crate::idmap::{strictly_sorted, IdMap};
use crate::text::{seq_lt, str_eq};

verus! {

/// The kind of a lock event.
#[derive(Debug, Clone, Copy, PartialEq, Eq, Structural)]
pub enum LockEventKind {
    /// The lock was granted; `start` is when it was requested.
    Acquire,
    /// The lock was given back.
    Release,
}

impl LockEventKind {
    /// The name the trace format uses for the event.
    pub fn label(&self) -> (r: &'static str)
        ensures
            *self == LockEventKind::Acquire ==> r@ == "Acq"@,
            *self == LockEventKind::Release ==> r@ == "Rel"@,
    {
        match self {
            LockEventKind::Acquire => "Acq",
            LockEventKind::Release => "Rel",
        }
    }
}

/// One lock event of a task, with the holder of every held lock at the
/// moment it was recorded.
#[derive(Debug)]
pub struct LockEvent {
    pub kind: LockEventKind,
    pub lock: String,
    pub start: u64,
    pub end: u64,
    /// Lock name to the id of the task holding it.
    pub state: IdMap<String>,
}

pub struct LockEventView {
    pub kind: LockEventKind,
    pub lock: Seq<char>,
    pub start: u64,
    pub end: u64,
    pub state: Map<Seq<char>, Seq<char>>,
}

impl View for LockEvent {
    type V = LockEventView;

    open spec fn view(&self) -> LockEventView {
        LockEventView { kind: self.kind, lock: self.lock@, start: self.start, end: self.end, state: self.state@ }
    }
}

/// The events of a run, each under the task that caused it, in order.
pub open spec fn event_views(es: Seq<(String, LockEvent)>) -> Seq<(Seq<char>, LockEventView)> {
    es.map_values(|e: (String, LockEvent)| (e.0@, e.1@))
}

/// The events of `task` among `es`, in order.
pub open spec fn events_of(es: Seq<(Seq<char>, LockEventView)>, task: Seq<char>) -> Seq<LockEventView>
    decreases es.len(),
{
    if es.len() == 0 {
        Seq::empty()
    } else {
        let rest = events_of(es.drop_last(), task);
        if es.last().0 == task {
            rest.push(es.last().1)
        } else {
            rest
        }
    }
}

/// Some event of `es` was caused by `task`.
pub open spec fn caused_event(es: Seq<(Seq<char>, LockEventView)>, task: Seq<char>) -> bool {
    exists|m: int| 0 <= m < es.len() && es[m].0 == task
}

/// `task` is among `tasks`.
pub open spec fn lists_task(tasks: Seq<String>, task: Seq<char>) -> bool {
    exists|i: int| 0 <= i < tasks.len() && tasks[i]@ == task
}

/// The lock-event log of a traced run.
pub struct LockTrace {
    /// Lock name to the id of the task holding it.
    holders: IdMap<String>,
    /// Every event, under the task that caused it, in order.
    events: Vec<(String, LockEvent)>,
}

impl LockTrace {
    /// Which task holds each lock.
    pub closed spec fn holders_view(&self) -> Map<Seq<char>, Seq<char>> {
        self.holders@
    }

    /// The events recorded so far.
    pub closed spec fn events_view(&self) -> Seq<(Seq<char>, LockEventView)> {
        event_views(self.events@)
    }

    pub closed spec fn wf(&self) -> bool {
        &&& self.holders.wf()
        &&& forall|i: int| 0 <= i < self.events@.len() ==> (#[trigger] self.events@[i]).1.state.wf()
    }

    /// An empty log.
    pub fn new() -> (r: LockTrace)
        ensures
            r.wf(),
            r.holders_view() == Map::<Seq<char>, Seq<char>>::empty(),
            r.events_view() == Seq::<(Seq<char>, LockEventView)>::empty(),
    {
        let r = LockTrace { holders: IdMap::new(), events: Vec::new() };
        assert(r.events_view() =~= Seq::<(Seq<char>, LockEventView)>::empty());
        r
    }

    /// Forgets every event and every holder, to start another scenario.
    pub fn reset(&mut self)
        ensures
            final(self).wf(),
            final(self).holders_view() == Map::<Seq<char>, Seq<char>>::empty(),
            final(self).events_view() == Seq::<(Seq<char>, LockEventView)>::empty(),
    {
        *self = LockTrace::new();
    }

    /// Records that `task` was granted `lock` (requested at `start`, granted
    /// at `end`): the event carries the holders before the grant, then the
    /// task holds the lock.
    pub fn acquired(&mut self, task: &str, lock: &str, start: u64, end: u64)
        requires
            old(self).wf(),
        ensures
            final(self).wf(),
            final(self).events_view() == old(self).events_view().push(
                (
                    task@,
                    LockEventView {
                        kind: LockEventKind::Acquire,
                        lock: lock@,
                        start,
                        end,
                        state: old(self).holders_view(),
                    },
                ),
            ),
            final(self).holders_view() == old(self).holders_view().insert(lock@, task@),
    {
        let state = self.holders.duplicate();
        let event = LockEvent { kind: LockEventKind::Acquire, lock: String::from_str(lock), start, end, state };
        self.events.push((String::from_str(task), event));
        self.holders.insert(String::from_str(lock), String::from_str(task));
        assert(self.events_view() =~= old(self).events_view().push((task@, self.events@.last().1@)));
    }

    /// Records that `task` gave `lock` back at `at`: the lock is no longer
    /// held, and the event carries the holders after the release.
    pub fn released(&mut self, task: &str, lock: &str, at: u64)
        requires
            old(self).wf(),
        ensures
            final(self).wf(),
            final(self).holders_view() == old(self).holders_view().remove(lock@),
            final(self).events_view() == old(self).events_view().push(
                (
                    task@,
                    LockEventView {
                        kind: LockEventKind::Release,
                        lock: lock@,
                        start: at,
                        end: at,
                        state: old(self).holders_view().remove(lock@),
                    },
                ),
            ),
    {
        self.holders.remove(lock);
        let state = self.holders.duplicate();
        let event = LockEvent { kind: LockEventKind::Release, lock: String::from_str(lock), start: at, end: at, state };
        self.events.push((String::from_str(task), event));
        assert(self.events_view() =~= old(self).events_view().push((task@, self.events@.last().1@)));
    }

    /// The distinct tasks that caused events, in order of their first event.
    pub fn tasks(&self) -> (r: Vec<String>)
        requires
            self.wf(),
        ensures
            forall|i: int| 0 <= i < r@.len() ==> caused_event(self.events_view(), #[trigger] r@[i]@),
            forall|j: int| 0 <= j < self.events_view().len() ==> lists_task(r@, #[trigger] self.events_view()[j].0),
            forall|i: int, k: int| 0 <= i < k < r@.len() ==> r@[i]@ != r@[k]@,
    {
        let ghost all = self.events_view();
        let mut out: Vec<String> = Vec::new();
        let mut j: usize = 0;
        while j < self.events.len()
            invariant
                all == self.events_view(),
                all.len() == self.events@.len(),
                j <= self.events@.len(),
                forall|i: int| 0 <= i < out@.len() ==> caused_event(all, #[trigger] out@[i]@),
                forall|m: int| 0 <= m < j ==> lists_task(out@, #[trigger] all[m].0),
                forall|i: int, k: int| 0 <= i < k < out@.len() ==> out@[i]@ != out@[k]@,
            decreases self.events@.len() - j,
        {
            let task = &self.events[j].0;
            assert(all[j as int].0 == task@);
            let mut seen = false;
            let mut i: usize = 0;
            while i < out.len()
                invariant
                    i <= out@.len(),
                    seen ==> lists_task(out@, task@),
                    !seen ==> forall|q: int| 0 <= q < i ==> out@[q]@ != task@,
                decreases out@.len() - i,
            {
                if str_eq(out[i].as_str(), task.as_str()) {
                    seen = true;
                    assert(out@[i as int]@ == task@);
                }
                i = i + 1;
            }
            proof {
                assert(caused_event(all, task@)) by {
                    assert(all[j as int].0 == task@);
                }
            }
            if !seen {
                let ghost before = out@;
                out.push(task.clone());
                proof {
                    assert(out@[out@.len() - 1]@ == task@);
                    assert forall|m: int| 0 <= m < j implies lists_task(out@, #[trigger] all[m].0) by {
                        assert(lists_task(before, all[m].0));
                        let q = choose|q: int| 0 <= q < before.len() && before[q]@ == all[m].0;
                        assert(out@[q] == before[q]);
                    }
                    assert(lists_task(out@, task@));
                }
            }
            j = j + 1;
        }
        out
    }

    /// The events of `task`, in order, each with its holder snapshot as
    /// `(lock, task)` pairs in lock order.
    pub fn events_for(&self, task: &str) -> (r: Vec<(LockEventKind, String, u64, u64, Vec<(String, String)>)>)
        requires
            self.wf(),
        ensures
            r@.len() == events_of(self.events_view(), task@).len(),
            forall|i: int| 0 <= i < r@.len() ==> {
                let e = events_of(self.events_view(), task@)[i];
                let x = #[trigger] r@[i];
                &&& x.0 == e.kind
                &&& x.1@ == e.lock
                &&& x.2 == e.start
                &&& x.3 == e.end
                &&& x.4@.len() == e.state.dom().len()
                &&& forall|k: int| 0 <= k < x.4@.len() ==> e.state.contains_key(#[trigger] x.4@[k].0@)
                    && e.state[x.4@[k].0@] == x.4@[k].1@
                &&& forall|k: int, l: int| 0 <= k < l < x.4@.len() ==> seq_lt(#[trigger] x.4@[k].0@, #[trigger] x.4@[l].0@)
            },
    {
        let ghost all = self.events_view();
        let mut out: Vec<(LockEventKind, String, u64, u64, Vec<(String, String)>)> = Vec::new();
        let mut j: usize = 0;
        while j < self.events.len()
            invariant
                self.wf(),
                all == self.events_view(),
                j <= self.events@.len(),
                out@.len() == events_of(all.take(j as int), task@).len(),
                forall|i: int| 0 <= i < out@.len() ==> {
                    let e = events_of(all.take(j as int), task@)[i];
                    let x = #[trigger] out@[i];
                    &&& x.0 == e.kind
                    &&& x.1@ == e.lock
                    &&& x.2 == e.start
                    &&& x.3 == e.end
                    &&& x.4@.len() == e.state.dom().len()
                    &&& forall|k: int| 0 <= k < x.4@.len() ==> e.state.contains_key(#[trigger] x.4@[k].0@)
                        && e.state[x.4@[k].0@] == x.4@[k].1@
                    &&& forall|k: int, l: int| 0 <= k < l < x.4@.len() ==> seq_lt(#[trigger] x.4@[k].0@, #[trigger] x.4@[l].0@)
                },
            decreases self.events@.len() - j,
        {
            proof {
                assert(all.take(j + 1).drop_last() =~= all.take(j as int));
                assert(all.take(j + 1).last() == all[j as int]);
            }
            let (t, e) = (&self.events[j].0, &self.events[j].1);
            if str_eq(t.as_str(), task) {
                let snapshot = pairs_of(&e.state);
                out.push((e.kind, e.lock.clone(), e.start, e.end, snapshot));
            }
            j = j + 1;
        }
        assert(all.take(self.events@.len() as int) =~= all);
        out
    }
}

/// The entries of a map as `(key, value)` pairs, in key order.
fn pairs_of(m: &IdMap<String>) -> (r: Vec<(String, String)>)
    requires
        m.wf(),
    ensures
        r@.len() == m@.dom().len(),
        forall|k: int| 0 <= k < r@.len() ==> m@.contains_key(#[trigger] r@[k].0@) && m@[r@[k].0@] == r@[k].1@,
        forall|k: int, l: int| 0 <= k < l < r@.len() ==> seq_lt(#[trigger] r@[k].0@, #[trigger] r@[l].0@),
{
    proof {
        m.lemma_view();
    }
    let mut out: Vec<(String, String)> = Vec::new();
    let mut i: usize = 0;
    while i < m.len()
        invariant
            m.wf(),
            i <= m.keys().len(),
            m.keys().len() == m.vals().len(),
            m@.dom().len() == m.keys().len(),
            forall|q: int| 0 <= q < m.keys().len() ==> #[trigger] m@[m.keys()[q]] == m.vals()[q],
            forall|key: Seq<char>| #[trigger] m@.contains_key(key) <==> m.keys().contains(key),
            out@.len() == i,
            forall|q: int| 0 <= q < i ==> (#[trigger] out@[q]).0@ == m.keys()[q] && out@[q].1@ == m.vals()[q],
            strictly_sorted(m.keys()),
        decreases m.keys().len() - i,
    {
        let k = m.key_at(i).clone();
        let v = m.value_at(i).clone();
        out.push((k, v));
        i = i + 1;
    }
    assert forall|k: int, l: int| 0 <= k < l < out@.len() implies seq_lt(#[trigger] out@[k].0@, #[trigger] out@[l].0@) by {
        assert(seq_lt(m.keys()[k], m.keys()[l]));
    }
    assert forall|q: int| 0 <= q < out@.len() implies m@.contains_key(#[trigger] out@[q].0@) && m@[out@[q].0@] == out@[q].1@ by {
        assert(m.keys().contains(m.keys()[q]));
        assert(m@[m.keys()[q]] == m.vals()[q]);
    }
    out
}

} // verus!
