//! Version vectors: `device id -> logical counter`, a missing key reading as 0.

use vstd::prelude::*;

use crate::idmap::IdMap;
use crate::text::lemma_take_succ_contains;

verus! {

/// A version vector.
pub type VClock = IdMap<u64>;

/// The mathematical view of a version vector.
pub type ClockView = Map<Seq<char>, u64>;

/// Component `k` of `m`, 0 when absent.
pub open spec fn vc_at(m: ClockView, k: Seq<char>) -> u64 {
    if m.contains_key(k) {
        m[k]
    } else {
        0
    }
}

/// The larger of two counters.
pub open spec fn max_u64(a: u64, b: u64) -> u64 {
    if a >= b {
        a
    } else {
        b
    }
}

/// `a` dominates `b`: `a[k] >= b[k]` for every component of `b`.
pub open spec fn dominates(a: ClockView, b: ClockView) -> bool {
    forall|k: Seq<char>| #[trigger] b.contains_key(k) ==> vc_at(a, k) >= b[k]
}

/// `a` strictly dominates `b`: dominates and differs.
pub open spec fn strictly_dominates(a: ClockView, b: ClockView) -> bool {
    a != b && dominates(a, b)
}

/// `m` without its zero components.
pub open spec fn canonical(m: ClockView) -> ClockView {
    Map::new(|k: Seq<char>| m.contains_key(k) && m[k] > 0, |k: Seq<char>| m[k])
}

/// Every component of `m` is positive (the canonical form).
pub open spec fn is_canonical(m: ClockView) -> bool {
    forall|k: Seq<char>| #[trigger] m.contains_key(k) ==> m[k] > 0
}

/// Pointwise maximum of `a` and `b`, in canonical form.
pub open spec fn joined(a: ClockView, b: ClockView) -> ClockView {
    Map::new(
        |k: Seq<char>| (a.contains_key(k) || b.contains_key(k)) && max_u64(vc_at(a, k), vc_at(b, k)) > 0,
        |k: Seq<char>| max_u64(vc_at(a, k), vc_at(b, k)),
    )
}

/// `joined` is commutative.
pub proof fn lemma_joined_commutative(a: ClockView, b: ClockView)
    ensures
        joined(a, b) == joined(b, a),
{
    assert(joined(a, b) =~= joined(b, a));
}

/// `joined` is associative.
pub proof fn lemma_joined_associative(a: ClockView, b: ClockView, c: ClockView)
    ensures
        joined(joined(a, b), c) == joined(a, joined(b, c)),
{
    assert(joined(joined(a, b), c) =~= joined(a, joined(b, c)));
}

/// Joining a clock with itself yields its canonical form.
pub proof fn lemma_joined_self(a: ClockView)
    ensures
        joined(a, a) == canonical(a),
{
    assert(joined(a, a) =~= canonical(a));
}

/// Joining with the empty clock yields the canonical form.
pub proof fn lemma_joined_empty(a: ClockView)
    ensures
        joined(a, Map::empty()) == canonical(a),
        joined(Map::empty(), a) == canonical(a),
{
    assert(joined(a, Map::empty()) =~= canonical(a));
    assert(joined(Map::empty(), a) =~= canonical(a));
}

/// A join is always canonical, and canonicalizing a canonical clock changes nothing.
pub proof fn lemma_canonical_facts(a: ClockView, b: ClockView)
    ensures
        is_canonical(joined(a, b)),
        is_canonical(canonical(a)),
        is_canonical(a) ==> canonical(a) == a,
        canonical(canonical(a)) == canonical(a),
{
    if is_canonical(a) {
        assert(canonical(a) =~= a);
    }
    assert(canonical(canonical(a)) =~= canonical(a));
}

/// Component `k` of `m`, 0 when absent.
pub fn vc_get(m: &VClock, k: &str) -> (r: u64)
    requires
        m.wf(),
    ensures
        r == vc_at(m@, k@),
{
    match m.get(k) {
        Some(v) => *v,
        None => 0,
    }
}

/// `a` dominates `b`: `a[k] >= b[k]` for every component (missing = 0).
pub fn vc_dominates(a: &VClock, b: &VClock) -> (r: bool)
    requires
        a.wf(),
        b.wf(),
    ensures
        r == dominates(a@, b@),
{
    proof {
        b.lemma_view();
    }
    let mut i: usize = 0;
    while i < b.len()
        invariant
            a.wf(),
            b.wf(),
            i <= b.keys().len(),
            b.keys().len() == b.vals().len(),
            forall|j: int| 0 <= j < b.keys().len() ==> #[trigger] b@[b.keys()[j]] == b.vals()[j],
            forall|j: int| 0 <= j < i ==> vc_at(a@, #[trigger] b.keys()[j]) >= b.vals()[j],
        decreases b.keys().len() - i,
    {
        let k = b.key_at(i);
        let vb = *b.value_at(i);
        if vc_get(a, k.as_str()) < vb {
            assert(b.keys()[i as int] == k@);
            assert(b@.contains_key(k@)) by {
                b.lemma_view();
                assert(b.keys().contains(k@));
            }
            return false;
        }
        i = i + 1;
    }
    proof {
        b.lemma_view();
        assert forall|k: Seq<char>| #[trigger] b@.contains_key(k) implies vc_at(a@, k) >= b@[k] by {
            let j = choose|j: int| 0 <= j < b.keys().len() && b.keys()[j] == k;
            assert(vc_at(a@, b.keys()[j]) >= b.vals()[j]);
        }
    }
    true
}

/// Whether the two clocks have the same components (zero entries included).
pub fn vc_equal(a: &VClock, b: &VClock) -> (r: bool)
    requires
        a.wf(),
        b.wf(),
    ensures
        r == (a@ == b@),
{
    proof {
        a.lemma_view();
        b.lemma_view();
    }
    let mut i: usize = 0;
    while i < a.len()
        invariant
            a.wf(),
            b.wf(),
            i <= a.keys().len(),
            a.keys().len() == a.vals().len(),
            forall|j: int| 0 <= j < a.keys().len() ==> #[trigger] a@[a.keys()[j]] == a.vals()[j],
            forall|j: int|
                0 <= j < i ==> b@.contains_key(#[trigger] a.keys()[j]) && b@[a.keys()[j]]
                    == a.vals()[j],
        decreases a.keys().len() - i,
    {
        let k = a.key_at(i);
        match b.get(k.as_str()) {
            Some(vb) => {
                if *vb != *a.value_at(i) {
                    proof {
                        a.lemma_view();
                        assert(a@[a.keys()[i as int]] == a.vals()[i as int]);
                    }
                    return false;
                }
            },
            None => {
                proof {
                    a.lemma_view();
                    assert(a.keys().contains(a.keys()[i as int]));
                }
                return false;
            },
        }
        i = i + 1;
    }
    let mut j: usize = 0;
    while j < b.len()
        invariant
            a.wf(),
            b.wf(),
            j <= b.keys().len(),
            forall|m: int| 0 <= m < j ==> a@.contains_key(#[trigger] b.keys()[m]),
        decreases b.keys().len() - j,
    {
        let k = b.key_at(j);
        if !a.contains_key(k.as_str()) {
            proof {
                b.lemma_view();
                assert(b.keys().contains(b.keys()[j as int]));
            }
            return false;
        }
        j = j + 1;
    }
    proof {
        a.lemma_view();
        b.lemma_view();
        assert(a@ =~= b@) by {
            assert forall|k: Seq<char>| #[trigger] a@.contains_key(k) <==> b@.contains_key(k) by {
                if a@.contains_key(k) {
                    let m = choose|m: int| 0 <= m < a.keys().len() && a.keys()[m] == k;
                    assert(b@.contains_key(a.keys()[m]));
                }
                if b@.contains_key(k) {
                    let m = choose|m: int| 0 <= m < b.keys().len() && b.keys()[m] == k;
                    assert(a@.contains_key(b.keys()[m]));
                }
            }
            assert forall|k: Seq<char>| #[trigger] a@.contains_key(k) implies a@[k] == b@[k] by {
                let m = choose|m: int| 0 <= m < a.keys().len() && a.keys()[m] == k;
                assert(b@[a.keys()[m]] == a.vals()[m]);
            }
        }
    }
    true
}

/// `a` strictly dominates `b`: dominates and is not equal.
pub fn vc_strictly_dominates(a: &VClock, b: &VClock) -> (r: bool)
    requires
        a.wf(),
        b.wf(),
    ensures
        r == strictly_dominates(a@, b@),
{
    !vc_equal(a, b) && vc_dominates(a, b)
}

/// Drops zero components so a clock has a single canonical form.
pub fn vc_canon(vc: &mut VClock)
    requires
        old(vc).wf(),
    ensures
        final(vc).wf(),
        final(vc)@ == canonical(old(vc)@),
{
    proof {
        vc.lemma_view();
    }
    let mut out: VClock = IdMap::new();
    let mut i: usize = 0;
    while i < vc.len()
        invariant
            vc.wf(),
            out.wf(),
            i <= vc.keys().len(),
            vc.keys().len() == vc.vals().len(),
            forall|j: int| 0 <= j < vc.keys().len() ==> #[trigger] vc@[vc.keys()[j]] == vc.vals()[j],
            out@ == Map::new(
                |k: Seq<char>| vc.keys().take(i as int).contains(k) && vc@[k] > 0,
                |k: Seq<char>| vc@[k],
            ),
        decreases vc.keys().len() - i,
    {
        let k = vc.key_at(i);
        let v = *vc.value_at(i);
        let ghost prev = out@;
        if v > 0 {
            out.insert(k.clone(), v);
        }
        proof {
            let ks = vc.keys();
            lemma_take_succ_contains(ks, i as int);
            assert(vc@[ks[i as int]] == v);
            assert(out@ =~= Map::new(
                |k: Seq<char>| vc.keys().take(i + 1).contains(k) && vc@[k] > 0,
                |k: Seq<char>| vc@[k],
            ));
        }
        i = i + 1;
    }
    proof {
        vc.lemma_view();
        assert(vc.keys().take(vc.keys().len() as int) =~= vc.keys());
        assert(out@ =~= canonical(vc@));
    }
    *vc = out;
}

/// Pointwise maximum (the lattice join), in canonical form.
pub fn vc_join(a: &VClock, b: &VClock) -> (r: VClock)
    requires
        a.wf(),
        b.wf(),
    ensures
        r.wf(),
        r@ == joined(a@, b@),
{
    let mut out = a.duplicate();
    vc_canon(&mut out);
    proof {
        b.lemma_view();
    }
    let mut i: usize = 0;
    while i < b.len()
        invariant
            b.wf(),
            out.wf(),
            i <= b.keys().len(),
            b.keys().len() == b.vals().len(),
            forall|j: int| 0 <= j < b.keys().len() ==> #[trigger] b@[b.keys()[j]] == b.vals()[j],
            out@ == joined(a@, Map::new(|k: Seq<char>| b.keys().take(i as int).contains(k), |k: Seq<char>| b@[k])),
        decreases b.keys().len() - i,
    {
        let k = b.key_at(i);
        let vb = *b.value_at(i);
        let cur = vc_get(&out, k.as_str());
        let m = if cur >= vb { cur } else { vb };
        if m > 0 {
            out.insert(k.clone(), m);
        }
        proof {
            let ks = b.keys();
            lemma_take_succ_contains(ks, i as int);
            assert(b@[ks[i as int]] == vb);
            assert(out@ =~= joined(a@, Map::new(|k: Seq<char>| b.keys().take(i + 1).contains(k), |k: Seq<char>| b@[k])));
        }
        i = i + 1;
    }
    proof {
        b.lemma_view();
        assert(b.keys().take(b.keys().len() as int) =~= b.keys());
        assert(Map::new(|k: Seq<char>| b.keys().take(b.keys().len() as int).contains(k), |k: Seq<char>| b@[k]) =~= b@);
    }
    out
}

} // verus!
