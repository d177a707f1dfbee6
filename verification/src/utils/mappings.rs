//! The old-to-new identifier mapping that a compaction returns.

use vstd::prelude::*;

use crate::base::outers::Identifier;

verus! {

/// The mapping a sequence of distinct-keyed pairs denotes, keyed and valued
/// by identifier positions.
pub open spec fn pairs_map<I: Identifier>(s: Seq<(I, I)>) -> Map<nat, nat>
    decreases s.len(),
{
    if s.len() == 0 {
        Map::empty()
    } else {
        pairs_map(s.drop_last()).insert(s.last().0.value(), s.last().1.value())
    }
}

/// A key of the denoted mapping is exactly a key of some pair.
proof fn lemma_pairs_map_dom<I: Identifier>(s: Seq<(I, I)>, k: nat)
    ensures
        pairs_map(s).contains_key(k) <==> exists|i: int|
            0 <= i < s.len() && #[trigger] s[i].0.value() == k,
    decreases s.len(),
{
    if s.len() > 0 {
        lemma_pairs_map_dom(s.drop_last(), k);
        if pairs_map(s).contains_key(k) {
            if s.last().0.value() != k {
                let i = choose|i: int|
                    0 <= i < s.drop_last().len() && #[trigger] s.drop_last()[i].0.value() == k;
                assert(s[i].0.value() == k);
            } else {
                assert(s[s.len() - 1].0.value() == k);
            }
        }
        if exists|i: int| 0 <= i < s.len() && #[trigger] s[i].0.value() == k {
            let i = choose|i: int| 0 <= i < s.len() && #[trigger] s[i].0.value() == k;
            if i < s.len() - 1 {
                assert(s.drop_last()[i].0.value() == k);
            }
        }
    }
}

/// Under distinct keys, the denoted mapping sends each pair's key to that
/// pair's value.
proof fn lemma_pairs_map_entry<I: Identifier>(s: Seq<(I, I)>, i: int)
    requires
        0 <= i < s.len(),
        forall|a: int, b: int|
            0 <= a < b < s.len() ==> #[trigger] s[a].0.value() != #[trigger] s[b].0.value(),
    ensures
        pairs_map(s).contains_key(s[i].0.value()),
        pairs_map(s)[s[i].0.value()] == s[i].1.value(),
    decreases s.len(),
{
    if i == s.len() - 1 {
    } else {
        lemma_pairs_map_entry(s.drop_last(), i);
        assert(s.drop_last()[i] == s[i]);
        assert(s[i].0.value() != s[s.len() - 1].0.value());
    }
}

/// A complete old-to-new identifier mapping, as returned by a compaction:
/// each surviving identifier's old position paired with its new one.
pub struct IdMapping<I: Identifier> {
    entries: Vec<(I, I)>,
}

impl<I: Identifier> View for IdMapping<I> {
    type V = Map<nat, nat>;

    closed spec fn view(&self) -> Map<nat, nat> {
        pairs_map(self.entries@)
    }
}

impl<I: Identifier> IdMapping<I> {
    /// No two pairs share an old position, and every stored identifier is
    /// well formed.
    pub closed spec fn wf(&self) -> bool {
        &&& forall|a: int, b: int|
            0 <= a < b < self.entries@.len() ==> #[trigger] self.entries@[a].0.value()
                != #[trigger] self.entries@[b].0.value()
        &&& forall|a: int|
            0 <= a < self.entries@.len() ==> (#[trigger] self.entries@[a].0.wf())
                && self.entries@[a].1.wf()
    }

    /// An empty mapping.
    pub fn new() -> (r: Self)
        ensures
            r.wf(),
            r@ == Map::<nat, nat>::empty(),
    {
        IdMapping { entries: Vec::new() }
    }

    /// Record that the object at `old_id` now lives at `new_id`.
    pub fn push_pair(&mut self, old_id: I, new_id: I)
        requires
            old(self).wf(),
            old_id.wf(),
            new_id.wf(),
            !old(self)@.contains_key(old_id.value()),
        ensures
            final(self).wf(),
            final(self)@ == old(self)@.insert(old_id.value(), new_id.value()),
    {
        proof {
            lemma_pairs_map_dom(self.entries@, old_id.value());
        }
        self.entries.push((old_id, new_id));
        proof {
            assert(self.entries@.drop_last() =~= old(self).entries@);
        }
    }

    /// The new identifier recorded for `id`, or nothing when `id` is not an
    /// old position of this mapping.
    pub fn lookup(&self, id: I) -> (r: Option<I>)
        requires
            self.wf(),
        ensures
            match r {
                Some(n) => self@.contains_key(id.value()) && n.wf() && n.value() == self@[id.value()],
                None => !self@.contains_key(id.value()),
            },
    {
        let n = self.entries.len();
        let mut j: usize = 0;
        while j < n
            invariant
                self.wf(),
                n == self.entries@.len(),
                j <= n,
                forall|i: int| 0 <= i < j ==> #[trigger] self.entries@[i].0.value() != id.value(),
            decreases n - j,
        {
            let e = self.entries[j];
            if e.0.eq_id(id) {
                proof {
                    lemma_pairs_map_entry(self.entries@, j as int);
                    assert(self.entries@[j as int].0.wf());
                }
                return Some(e.1);
            }
            j += 1;
        }
        proof {
            lemma_pairs_map_dom(self.entries@, id.value());
        }
        None
    }

    /// The new position recorded for old position `k`, or nothing when `k`
    /// is not an old position of this mapping.
    pub fn lookup_index(&self, k: usize) -> (r: Option<usize>)
        requires
            self.wf(),
        ensures
            match r {
                Some(n) => self@.contains_key(k as nat) && n as nat == self@[k as nat] && n as nat
                    <= I::max_value(),
                None => !self@.contains_key(k as nat),
            },
    {
        let n = self.entries.len();
        let mut j: usize = 0;
        while j < n
            invariant
                self.wf(),
                n == self.entries@.len(),
                j <= n,
                forall|i: int| 0 <= i < j ==> #[trigger] self.entries@[i].0.value() != k as nat,
            decreases n - j,
        {
            let e = self.entries[j];
            proof {
                assert(self.entries@[j as int].0.wf());
            }
            if e.0.to_index() == k {
                proof {
                    lemma_pairs_map_entry(self.entries@, j as int);
                    self.entries@[j as int].1.lemma_wf_bounds();
                }
                return Some(e.1.to_index());
            }
            j += 1;
        }
        proof {
            lemma_pairs_map_dom(self.entries@, k as nat);
        }
        None
    }

    /// Every position a mapping records, old or new, lies within the
    /// identifier domain.
    pub proof fn lemma_mapping_bounded(&self)
        requires
            self.wf(),
        ensures
            forall|x: nat| #[trigger]
                self@.contains_key(x) ==> x <= I::max_value() && self@[x] <= I::max_value(),
    {
        let s = self.entries@;
        assert forall|x: nat| #[trigger] self@.contains_key(x) implies x <= I::max_value()
            && self@[x] <= I::max_value() by {
            lemma_pairs_map_dom(s, x);
            let i = choose|i: int| 0 <= i < s.len() && #[trigger] s[i].0.value() == x;
            lemma_pairs_map_entry(s, i);
            assert(s[i].0.wf());
            s[i].0.lemma_wf_bounds();
            s[i].1.lemma_wf_bounds();
        }
    }

    /// How many old positions this mapping covers.
    pub fn len(&self) -> (n: usize)
        requires
            self.wf(),
        ensures
            n as nat == self@.dom().len(),
    {
        proof {
            lemma_pairs_map_len(self.entries@);
        }
        self.entries.len()
    }
}

/// Under distinct keys, the denoted mapping has exactly one entry per pair.
proof fn lemma_pairs_map_len<I: Identifier>(s: Seq<(I, I)>)
    requires
        forall|a: int, b: int|
            0 <= a < b < s.len() ==> #[trigger] s[a].0.value() != #[trigger] s[b].0.value(),
    ensures
        pairs_map(s).dom().finite(),
        pairs_map(s).dom().len() == s.len(),
    decreases s.len(),
{
    broadcast use vstd::set::group_set_axioms;

    if s.len() > 0 {
        lemma_pairs_map_len(s.drop_last());
        lemma_pairs_map_dom(s.drop_last(), s.last().0.value());
        assert(forall|i: int|
            0 <= i < s.drop_last().len() ==> #[trigger] s.drop_last()[i].0.value() != s.last()
                .0.value());
    }
}

} // verus!
