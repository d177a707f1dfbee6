//! Storage abstraction keyed by small non-negative integers, with a dense
//! (index-addressed) and a sparse (hash-addressed) backend.

pub mod dense;
pub mod sparse;

use std::collections::HashMap;

use vstd::prelude::*;

verus! {

/// The mapping `m` returned by a compaction is exactly the renumbering of
/// the occupied keys of `old_c` onto the contiguous range `[0, n)`, and
/// `new_c` holds each surviving payload under its new key.
pub open spec fn valid_compaction<V: Clone>(
    old_c: Map<nat, V>,
    new_c: Map<nat, V>,
    m: Map<usize, usize>,
) -> bool {
    let n = old_c.dom().len();
    &&& forall|k: usize| #[trigger] m.dom().contains(k) ==> old_c.dom().contains(k as nat)
    &&& forall|k: nat| #[trigger]
        old_c.dom().contains(k) ==> k <= usize::MAX as nat && m.dom().contains(k as usize)
    &&& forall|k: usize| #[trigger] m.dom().contains(k) ==> (m[k] as nat) < n
    &&& forall|k1: usize, k2: usize| #![trigger m[k1], m[k2]]
        m.dom().contains(k1) && m.dom().contains(k2) && k1 != k2 ==> m[k1] != m[k2]
    &&& forall|j: nat| #![trigger new_c.dom().contains(j)] new_c.dom().contains(j) <==> j < n
    &&& forall|k: usize| #[trigger]
        m.dom().contains(k) ==> new_c.dom().contains(m[k] as nat) && cloned::<V>(
            old_c[k as nat],
            new_c[m[k] as nat],
        )
}

/// The renumbering keeps the relative order of the keys it maps.
pub open spec fn compaction_ordered(m: Map<usize, usize>) -> bool {
    forall|k1: usize, k2: usize| #![trigger m[k1], m[k2]]
        m.dom().contains(k1) && m.dom().contains(k2) && k1 < k2 ==> m[k1] < m[k2]
}

/// Round trip through an order-keeping compaction: every surviving key,
/// resolved through the returned mapping, finds its original payload in the
/// compacted copy; the new keyspace is exactly the first `n` positions,
/// where `n` is the number of occupied slots before compaction; and the
/// renumbering follows ascending original-key order.
pub proof fn lemma_compaction_round_trip<V: Clone>(
    old_c: Map<nat, V>,
    new_c: Map<nat, V>,
    m: Map<usize, usize>,
)
    requires
        valid_compaction(old_c, new_c, m),
        compaction_ordered(m),
    ensures
        forall|k: usize| #[trigger]
            m.dom().contains(k) ==> cloned::<V>(old_c[k as nat], new_c[m[k] as nat]),
        forall|j: nat| #![trigger new_c.dom().contains(j)]
            new_c.dom().contains(j) <==> j < old_c.dom().len(),
        forall|k1: usize, k2: usize| #![trigger m[k1], m[k2]]
            m.dom().contains(k1) && m.dom().contains(k2) && k1 < k2 ==> m[k1] < m[k2],
{
}

/// How many keys of `m` lie strictly below `upto`: the rank a key receives
/// when the occupied keys are renumbered in ascending order.
pub open spec fn keys_below<V>(m: Map<nat, V>, upto: int) -> nat
    decreases upto,
{
    if upto <= 0 {
        0
    } else {
        keys_below(m, upto - 1) + (if m.dom().contains((upto - 1) as nat) {
            1nat
        } else {
            0nat
        })
    }
}

/// `keys_below` counts exactly the keys of `m` below `upto`.
pub proof fn lemma_keys_below_counts<V>(m: Map<nat, V>, upto: int)
    requires
        m.dom().finite(),
        upto >= 0,
    ensures
        keys_below(m, upto) == m.dom().filter(|k: nat| k < upto).len(),
        m.dom().filter(|k: nat| k < upto).finite(),
    decreases upto,
{
    broadcast use vstd::set::group_set_axioms;

    let s_here = m.dom().filter(|k: nat| k < upto);
    m.dom().lemma_len_filter(|k: nat| k < upto);
    if upto == 0 {
        assert(s_here =~= Set::empty());
    } else {
        lemma_keys_below_counts(m, upto - 1);
        let s_prev = m.dom().filter(|k: nat| k < upto - 1);
        if m.dom().contains((upto - 1) as nat) {
            assert(s_here =~= s_prev.insert((upto - 1) as nat));
            assert(!s_prev.contains((upto - 1) as nat));
        } else {
            assert(s_here =~= s_prev);
        }
    }
}

/// Once `upto` covers every key of `m`, `keys_below` is the number of keys.
pub proof fn lemma_keys_below_all<V>(m: Map<nat, V>, upto: int)
    requires
        m.dom().finite(),
        upto >= 0,
        forall|k: nat| #[trigger] m.dom().contains(k) ==> k < upto,
    ensures
        keys_below(m, upto) == m.dom().len(),
{
    lemma_keys_below_counts(m, upto);
    assert(m.dom().filter(|k: nat| k < upto) =~= m.dom());
}

/// A set of naturals below a bound is finite and no larger than the bound.
pub proof fn lemma_bounded_nat_set_finite(s: Set<nat>, bound: nat)
    requires
        forall|k: nat| #[trigger] s.contains(k) ==> k < bound,
    ensures
        s.finite(),
        s.len() <= bound,
{
    let r = Set::<nat>::range(0, bound);
    vstd::set_lib::range_set_properties::<nat>(0, bound);
    assert(s.subset_of(r));
    vstd::set_lib::lemma_len_subset(s, r);
}

/// The count of keys below a bound never decreases as the bound grows.
pub proof fn lemma_keys_below_monotone<V>(m: Map<nat, V>, a: int, b: int)
    requires
        a <= b,
    ensures
        keys_below(m, a) <= keys_below(m, b),
    decreases b - a,
{
    if a < b {
        lemma_keys_below_monotone(m, a, b - 1);
    }
}

/// A storage abstraction keyed by small non-negative integers: insertion
/// with auto-assigned key, explicit put/remove by key, lookup, and a
/// compaction that returns a reindexed copy plus the old-to-new key mapping.
///
/// `contents` is the mapping from occupied key to payload, and `counter` the
/// next free key for auto-assigned insertion; removing a key never shrinks
/// the counter.
pub trait IntMap<V: Clone>: Sized {
    /// The occupied keys and their payloads.
    spec fn contents(&self) -> Map<nat, V>;

    /// The next key an auto-assigned insertion will use.
    spec fn counter(&self) -> nat;

    /// The backend's internal invariant.
    spec fn wf(&self) -> bool;

    /// Whether this backend renumbers in ascending key order on compaction.
    spec fn flatten_preserves_order() -> bool;

    /// A well-formed backend holds finitely many keys, all below the
    /// counter, and the counter is an addressable index.
    proof fn lemma_wf_props(&self)
        requires
            self.wf(),
        ensures
            self.contents().dom().finite(),
            forall|k: nat| #[trigger] self.contents().dom().contains(k) ==> k < self.counter(),
            self.counter() <= usize::MAX as nat,
    ;

    /// An empty backend, with the counter at the first key.
    fn empty() -> (r: Self)
        ensures
            r.wf(),
            r.contents() == Map::<nat, V>::empty(),
            r.counter() == 0,
    ;

    /// The key the next auto-assigned insertion will use.
    fn next_key(&self) -> (k: usize)
        requires
            self.wf(),
        ensures
            k as nat == self.counter(),
    ;

    /// Insert `elem` at the current counter position and return the assigned
    /// key, advancing the counter.
    fn add(&mut self, elem: V) -> (k: usize)
        requires
            old(self).wf(),
            old(self).counter() < usize::MAX as nat,
        ensures
            final(self).wf(),
            k as nat == old(self).counter(),
            final(self).counter() == old(self).counter() + 1,
            final(self).contents() == old(self).contents().insert(k as nat, elem),
    ;

    /// Store `elem` at `k` (overwriting, and advancing the counter past `k`
    /// if needed), or clear the slot when `elem` is `None` without shrinking
    /// anything.
    fn put(&mut self, k: usize, elem: Option<V>)
        requires
            old(self).wf(),
            elem matches Some(_) ==> k < usize::MAX,
        ensures
            final(self).wf(),
            match elem {
                Some(v) => {
                    &&& final(self).contents() == old(self).contents().insert(k as nat, v)
                    &&& final(self).counter() == if k as nat >= old(self).counter() {
                        k as nat + 1
                    } else {
                        old(self).counter()
                    }
                },
                None => {
                    &&& final(self).contents() == old(self).contents().remove(k as nat)
                    &&& final(self).counter() == old(self).counter()
                },
            },
    ;

    /// Remove the payload at `k`; a no-op if the slot is already empty.
    fn rmv(&mut self, k: usize)
        requires
            old(self).wf(),
        ensures
            final(self).wf(),
            final(self).contents() == old(self).contents().remove(k as nat),
            final(self).counter() == old(self).counter(),
    {
        self.put(k, None);
    }

    /// The payload at `k`, or nothing if the slot is absent or out of the
    /// current bounds.
    fn get(&self, k: usize) -> (r: Option<V>)
        requires
            self.wf(),
        ensures
            match r {
                Some(v) => self.contents().contains_key(k as nat) && cloned::<V>(
                    self.contents()[k as nat],
                    v,
                ),
                None => !self.contents().contains_key(k as nat),
            },
    ;

    /// Get what the result of compacting this backend would be: a reindexed
    /// copy containing only the occupied slots, renumbered from 0, together
    /// with the old-to-new key mapping. Nothing here can fail; the `Result`
    /// carries the operation's place in a larger protocol whose other
    /// members can.
    fn get_flattening(&self) -> (r: Result<(Self, HashMap<usize, usize>), ()>)
        requires
            self.wf(),
        ensures
            match r {
                Ok(p) => {
                    &&& p.0.wf()
                    &&& valid_compaction(self.contents(), p.0.contents(), p.1@)
                    &&& p.0.counter() == self.contents().dom().len()
                    &&& (Self::flatten_preserves_order() ==> compaction_ordered(p.1@))
                },
                Err(e) => false,
            },
    ;
}

} // verus!
