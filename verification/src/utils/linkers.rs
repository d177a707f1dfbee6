//! A bijective association between two identifier spaces, kept consistent
//! across compactions through its two updater adapters.

use std::marker::PhantomData;

use vstd::prelude::*;

use crate::base::outers::Identifier;
use crate::errors::IdError;
use crate::utils::mappings::IdMapping;
use crate::utils::UpdatableIdStore;

verus! {

#[verifier::external_type_specification]
#[verifier::external_body]
#[verifier::reject_recursive_types(L)]
#[verifier::reject_recursive_types(R)]
#[verifier::reject_recursive_types(LS)]
#[verifier::reject_recursive_types(RS)]
pub struct ExBiHashMap<L, R, LS, RS>(bimap::BiHashMap<L, R, LS, RS>);

/// What a bidirectional hash map holds, as the mapping from left value to
/// right value. The map's own invariant keeps the association bijective.
pub uninterp spec fn bimap_pairs(m: bimap::BiHashMap<usize, usize>) -> Map<usize, usize>;

/// Relies on `bimap::BiHashMap::new`: the new bimap holds no pairs.
#[verifier::external_body]
fn bimap_new() -> (r: bimap::BiHashMap<usize, usize>)
{
    bimap::BiHashMap::new()
}

/// Relies on `bimap::BiHashMap::clear`: every pair is removed.
#[verifier::external_body]
fn bimap_clear(m: &mut bimap::BiHashMap<usize, usize>)
    ensures
        forall|l: usize| !(#[trigger] bimap_pairs(*final(m)).contains_key(l)),
{
    m.clear();
}

/// Relies on `bimap::BiHashMap::insert`: the pair is added, after any pair
/// containing the left value and any pair containing the right value are
/// removed.
#[verifier::external_body]
fn bimap_insert(m: &mut bimap::BiHashMap<usize, usize>, l: usize, r: usize)
    ensures
        bimap_pairs(*final(m)) == Map::<usize, usize>::new(
            |x: usize|
                bimap_pairs(*old(m)).contains_key(x) && x != l && bimap_pairs(*old(m))[x] != r,
            |x: usize| bimap_pairs(*old(m))[x],
        ).insert(l, r),
{
    let _ = m.insert(l, r);
}

/// Relies on `bimap::BiHashMap::get_by_left`.
#[verifier::external_body]
fn bimap_get_by_left(m: &bimap::BiHashMap<usize, usize>, l: usize) -> (r: Option<usize>)
    ensures
        match r {
            Some(v) => bimap_pairs(*m).contains_key(l) && v == bimap_pairs(*m)[l],
            None => !bimap_pairs(*m).contains_key(l),
        },
{
    match m.get_by_left(&l) {
        Some(v) => Some(*v),
        None => None,
    }
}

/// Relies on `bimap::BiHashMap::get_by_right`.
#[verifier::external_body]
fn bimap_get_by_right(m: &bimap::BiHashMap<usize, usize>, r: usize) -> (res: Option<usize>)
    ensures
        match res {
            Some(l) => bimap_pairs(*m).contains_key(l) && bimap_pairs(*m)[l] == r,
            None => forall|l: usize| #[trigger]
                bimap_pairs(*m).contains_key(l) ==> bimap_pairs(*m)[l] != r,
        },
{
    match m.get_by_right(&r) {
        Some(l) => Some(*l),
        None => None,
    }
}

/// Relies on `bimap::BiHashMap::remove_by_left`: any pair with that left
/// value goes; absent values are a no-op.
#[verifier::external_body]
fn bimap_remove_by_left(m: &mut bimap::BiHashMap<usize, usize>, l: usize)
    ensures
        bimap_pairs(*final(m)) == bimap_pairs(*old(m)).remove(l),
{
    let _ = m.remove_by_left(&l);
}

/// Relies on `bimap::BiHashMap::remove_by_right`: any pair with that right
/// value goes; absent values are a no-op.
#[verifier::external_body]
fn bimap_remove_by_right(m: &mut bimap::BiHashMap<usize, usize>, r: usize)
    ensures
        bimap_pairs(*final(m)) == Map::<usize, usize>::new(
            |x: usize| bimap_pairs(*old(m)).contains_key(x) && bimap_pairs(*old(m))[x] != r,
            |x: usize| bimap_pairs(*old(m))[x],
        ),
{
    let _ = m.remove_by_right(&r);
}

/// Relies on `bimap::BiHashMap::iter`: every pair exactly once, in no
/// promised order.
#[verifier::external_body]
fn bimap_entries(m: &bimap::BiHashMap<usize, usize>) -> (v: Vec<(usize, usize)>)
    ensures
        v@.len() == bimap_pairs(*m).dom().len(),
        forall|i: int|
            0 <= i < v@.len() ==> #[trigger] bimap_pairs(*m).contains_key(v@[i].0) && bimap_pairs(
                *m,
            )[v@[i].0] == v@[i].1,
        forall|i: int, j: int| 0 <= i < j < v@.len() ==> v@[i].0 != v@[j].0,
        forall|l: usize| #[trigger]
            bimap_pairs(*m).contains_key(l) ==> exists|i: int|
                0 <= i < v@.len() && (#[trigger] v@[i]) == (l, bimap_pairs(*m)[l]),
{
    m.iter().map(|(l, r)| (*l, *r)).collect()
}

/// A bijective association between a left identifier space and a right
/// identifier space: each left identifier maps to at most one right
/// identifier and vice versa.
#[verifier::reject_recursive_types(T1)]
#[verifier::reject_recursive_types(T2)]
pub struct IdLinker<T1: Identifier, T2: Identifier> {
    map: bimap::BiHashMap<usize, usize>,
    p: PhantomData<(T1, T2)>,
}

impl<T1: Identifier, T2: Identifier> IdLinker<T1, T2> {
    /// The pairs this linker holds, from left position to right position.
    pub closed spec fn pairs(&self) -> Map<nat, nat> {
        Map::new(
            |l: nat| l <= usize::MAX as nat && bimap_pairs(self.map).contains_key(l as usize),
            |l: nat| bimap_pairs(self.map)[l as usize] as nat,
        )
    }

    /// The right positions this linker holds.
    pub open spec fn right_ids(&self) -> Set<nat> {
        Set::new(
            |r: nat| exists|l: nat| #[trigger] self.pairs().contains_key(l) && self.pairs()[l]
                == r,
        )
    }

    /// No two pairs share a right position, and every stored position lies
    /// within its identifier domain.
    pub closed spec fn wf(&self) -> bool {
        &&& forall|a: usize, b: usize|
            #![trigger bimap_pairs(self.map)[a], bimap_pairs(self.map)[b]]
            bimap_pairs(self.map).contains_key(a) && bimap_pairs(self.map).contains_key(b) && a
                != b ==> bimap_pairs(self.map)[a] != bimap_pairs(self.map)[b]
        &&& forall|l: usize| #[trigger]
            bimap_pairs(self.map).contains_key(l) ==> (l as nat) <= T1::max_value() && (
            bimap_pairs(self.map)[l] as nat) <= T2::max_value()
    }

    /// Held pairings are bijective: no two left positions share a right
    /// one. This is the invariant every mutator maintains, exposed for
    /// callers to use.
    pub proof fn lemma_pairs_injective(&self)
        requires
            self.wf(),
        ensures
            forall|a: nat, b: nat| #![trigger self.pairs()[a], self.pairs()[b]]
                self.pairs().contains_key(a) && self.pairs().contains_key(b) && a != b
                    ==> self.pairs()[a] != self.pairs()[b],
    {
        assert forall|a: nat, b: nat| #![trigger self.pairs()[a], self.pairs()[b]]
            self.pairs().contains_key(a) && self.pairs().contains_key(b) && a != b
                implies self.pairs()[a] != self.pairs()[b] by {
            assert(bimap_pairs(self.map).contains_key(a as usize));
            assert(bimap_pairs(self.map).contains_key(b as usize));
            assert(bimap_pairs(self.map)[a as usize] != bimap_pairs(self.map)[b as usize]);
        }
    }

    /// An empty linker.
    pub fn new() -> (r: Self)
        ensures
            r.wf(),
            r.pairs() == Map::<nat, nat>::empty(),
    {
        let mut map = bimap_new();
        bimap_clear(&mut map);
        let r = IdLinker { map, p: PhantomData };
        proof {
            assert(r.pairs() =~= Map::<nat, nat>::empty());
        }
        r
    }

    /// The right identifier paired with `left`, if any.
    pub fn get_by_left(&self, left: T1) -> (r: Option<T2>)
        requires
            self.wf(),
            left.wf(),
        ensures
            match r {
                Some(v) => self.pairs().contains_key(left.value()) && v.wf() && v.value()
                    == self.pairs()[left.value()],
                None => !self.pairs().contains_key(left.value()),
            },
    {
        let k = left.to_index();
        match bimap_get_by_left(&self.map, k) {
            Some(v) => match T2::from_index(v) {
                Ok(r2) => Some(r2),
                Err(_) => vstd::pervasive::unreached(),
            },
            None => None,
        }
    }

    /// The left identifier paired with `right`, if any.
    pub fn get_by_right(&self, right: T2) -> (r: Option<T1>)
        requires
            self.wf(),
            right.wf(),
        ensures
            match r {
                Some(l) => self.pairs().contains_key(l.value()) && l.wf() && self.pairs()[
                    l.value()] == right.value(),
                None => forall|x: nat| #[trigger]
                    self.pairs().contains_key(x) ==> self.pairs()[x] != right.value(),
            },
    {
        let k = right.to_index();
        match bimap_get_by_right(&self.map, k) {
            Some(l) => match T1::from_index(l) {
                Ok(r1) => Some(r1),
                Err(_) => vstd::pervasive::unreached(),
            },
            None => None,
        }
    }

    /// Establish the pair `(left, right)`, silently discarding any prior
    /// pairing that shared either side.
    pub fn insert(&mut self, left: T1, right: T2)
        requires
            old(self).wf(),
            left.wf(),
            right.wf(),
        ensures
            final(self).wf(),
            final(self).pairs() == Map::<nat, nat>::new(
                |x: nat|
                    old(self).pairs().contains_key(x) && x != left.value() && old(self).pairs()[x]
                        != right.value(),
                |x: nat| old(self).pairs()[x],
            ).insert(left.value(), right.value()),
    {
        let l = left.to_index();
        let r = right.to_index();
        bimap_insert(&mut self.map, l, r);
        proof {
            left.lemma_wf_bounds();
            right.lemma_wf_bounds();
            assert(final(self).pairs() =~= Map::<nat, nat>::new(
                |x: nat|
                    old(self).pairs().contains_key(x) && x != left.value() && old(self).pairs()[x]
                        != right.value(),
                |x: nat| old(self).pairs()[x],
            ).insert(left.value(), right.value()));
        }
    }

    /// Remove any pairing with `left` on the left side; a no-op if absent.
    pub fn delete_by_left(&mut self, left: &T1)
        requires
            old(self).wf(),
            left.wf(),
        ensures
            final(self).wf(),
            final(self).pairs() == old(self).pairs().remove(left.value()),
    {
        let l = left.to_index();
        bimap_remove_by_left(&mut self.map, l);
        proof {
            assert(final(self).pairs() =~= old(self).pairs().remove(left.value()));
        }
    }

    /// Remove any pairing with `right` on the right side; a no-op if absent.
    pub fn delete_by_right(&mut self, right: &T2)
        requires
            old(self).wf(),
            right.wf(),
        ensures
            final(self).wf(),
            final(self).pairs() == Map::<nat, nat>::new(
                |x: nat| old(self).pairs().contains_key(x) && old(self).pairs()[x]
                    != right.value(),
                |x: nat| old(self).pairs()[x],
            ),
    {
        let r = right.to_index();
        bimap_remove_by_right(&mut self.map, r);
        proof {
            assert(final(self).pairs() =~= Map::<nat, nat>::new(
                |x: nat| old(self).pairs().contains_key(x) && old(self).pairs()[x]
                    != right.value(),
                |x: nat| old(self).pairs()[x],
            ));
        }
    }

    /// The combinator over optional sides: both absent is a no-op, one side
    /// present deletes on that side, both present insert the pair.
    pub fn put(&mut self, left: Option<T1>, right: Option<T2>)
        requires
            old(self).wf(),
            left matches Some(l) ==> l.wf(),
            right matches Some(r) ==> r.wf(),
        ensures
            final(self).wf(),
            match (left, right) {
                (None, None) => *final(self) == *old(self),
                (None, Some(r)) => final(self).pairs() == Map::<nat, nat>::new(
                    |x: nat| old(self).pairs().contains_key(x) && old(self).pairs()[x]
                        != r.value(),
                    |x: nat| old(self).pairs()[x],
                ),
                (Some(l), None) => final(self).pairs() == old(self).pairs().remove(l.value()),
                (Some(l), Some(r)) => final(self).pairs() == Map::<nat, nat>::new(
                    |x: nat|
                        old(self).pairs().contains_key(x) && x != l.value() && old(self).pairs()[x]
                            != r.value(),
                    |x: nat| old(self).pairs()[x],
                ).insert(l.value(), r.value()),
            },
    {
        match (left, right) {
            (None, None) => {},
            (None, Some(right)) => self.delete_by_right(&right),
            (Some(left), None) => self.delete_by_left(&left),
            (Some(left), Some(right)) => self.insert(left, right),
        }
    }

    /// Rewrite every pair's left identifier through `mapping`, or report
    /// `IncompleteRemap` — leaving the linker untouched — when some held
    /// left identifier is missing from the mapping.
    pub fn update_left_ids(&mut self, mapping: &IdMapping<T1>) -> (r: Result<(), IdError>)
        requires
            old(self).wf(),
            mapping.wf(),
            forall|a: nat, b: nat| #![trigger mapping@[a], mapping@[b]]
                old(self).pairs().contains_key(a) && old(self).pairs().contains_key(b)
                    && mapping@.contains_key(a) && mapping@.contains_key(b) && a != b
                    ==> mapping@[a] != mapping@[b],
        ensures
            match r {
                Ok(u) => {
                    &&& final(self).wf()
                    &&& forall|x: nat| #[trigger]
                        old(self).pairs().contains_key(x) ==> mapping@.contains_key(x)
                    &&& forall|x: nat| #[trigger]
                        old(self).pairs().contains_key(x) ==> final(self).pairs().contains_key(
                            mapping@[x],
                        ) && final(self).pairs()[mapping@[x]] == old(self).pairs()[x]
                    &&& forall|y: nat| #[trigger]
                        final(self).pairs().contains_key(y) ==> exists|x: nat|
                            (#[trigger] old(self).pairs().contains_key(x))
                                && mapping@.contains_key(x) && mapping@[x] == y
                },
                Err(e) => {
                    &&& e == IdError::IncompleteRemap
                    &&& exists|x: nat| (#[trigger] old(self).pairs().contains_key(x))
                        && !mapping@.contains_key(x)
                    &&& *final(self) == *old(self)
                },
            },
    {
        proof {
            mapping.lemma_mapping_bounded();
            T1::lemma_max_bound();
            T2::lemma_max_bound();
        }
        let ghost old_u = bimap_pairs(self.map);
        let entries = bimap_entries(&self.map);
        let ghost es = entries@;
        let n = entries.len();
        let mut new_map = bimap_new();
        bimap_clear(&mut new_map);
        let mut i: usize = 0;
        while i < n
            invariant
                self.wf(),
                old_u == bimap_pairs(self.map),
                mapping.wf(),
                forall|a: nat, b: nat| #![trigger mapping@[a], mapping@[b]]
                    self.pairs().contains_key(a) && self.pairs().contains_key(b)
                        && mapping@.contains_key(a) && mapping@.contains_key(b) && a != b
                        ==> mapping@[a] != mapping@[b],
                forall|x: nat| #[trigger]
                    mapping@.contains_key(x) ==> x <= T1::max_value() && mapping@[x]
                        <= T1::max_value(),
                T1::max_value() <= usize::MAX as nat,
                T2::max_value() <= usize::MAX as nat,
                es == entries@,
                n == es.len(),
                forall|j: int|
                    0 <= j < n ==> #[trigger] old_u.contains_key(es[j].0) && old_u[es[j].0]
                        == es[j].1,
                forall|j1: int, j2: int| 0 <= j1 < j2 < n ==> es[j1].0 != es[j2].0,
                forall|l: usize| #[trigger]
                    old_u.contains_key(l) ==> exists|j: int|
                        0 <= j < n && (#[trigger] es[j]) == (l, old_u[l]),
                i <= n,
                forall|j: int| 0 <= j < i ==> mapping@.contains_key((#[trigger] es[j]).0 as nat),
                forall|j: int|
                    0 <= j < i ==> bimap_pairs(new_map).contains_key(
                        (mapping@[(#[trigger] es[j]).0 as nat]) as usize,
                    ) && bimap_pairs(new_map)[(mapping@[es[j].0 as nat]) as usize] == es[j].1,
                forall|y: usize| #[trigger]
                    bimap_pairs(new_map).contains_key(y) ==> exists|j: int|
                        0 <= j < i && (mapping@[(#[trigger] es[j]).0 as nat]) as usize == y,
            decreases n - i,
        {
            let e = entries[i];
            match mapping.lookup_index(e.0) {
                Some(nl) => {
                    let ghost prev = bimap_pairs(new_map);
                    bimap_insert(&mut new_map, nl, e.1);
                    proof {
                        assert(old_u.contains_key(es[i as int].0));
                        assert(self.pairs().contains_key(es[i as int].0 as nat));
                        assert forall|x: usize| #[trigger]
                            prev.contains_key(x) implies x != nl && prev[x] != e.1 by {
                            let j = choose|j: int|
                                0 <= j < i && (mapping@[(#[trigger] es[j]).0 as nat]) as usize
                                    == x;
                            assert(es[j].0 != es[i as int].0);
                            assert(old_u.contains_key(es[j].0));
                            assert(self.pairs().contains_key(es[j].0 as nat));
                            assert(mapping@[es[j].0 as nat] != mapping@[es[i as int].0 as nat]);
                            assert(prev[x] == es[j].1);
                            assert(old_u[es[j].0] != old_u[es[i as int].0]);
                        }
                        assert(bimap_pairs(new_map) =~= prev.insert(nl, e.1));
                    }
                },
                None => {
                    proof {
                        assert(old(self).pairs().contains_key(e.0 as nat));
                    }
                    return Err(IdError::IncompleteRemap);
                },
            }
            i += 1;
        }
        self.map = new_map;
        proof {
            assert forall|x: nat| #[trigger]
                old(self).pairs().contains_key(x) implies mapping@.contains_key(x)
                    && final(self).pairs().contains_key(mapping@[x]) && final(self).pairs()[
                mapping@[x]] == old(self).pairs()[x] by {
                assert(old_u.contains_key(x as usize));
                let j = choose|j: int|
                    0 <= j < n && (#[trigger] es[j]) == (x as usize, old_u[x as usize]);
                assert(mapping@.contains_key(es[j].0 as nat));
                assert(bimap_pairs(new_map).contains_key((mapping@[es[j].0 as nat]) as usize));
            }
            assert forall|y: nat| #[trigger]
                final(self).pairs().contains_key(y) implies exists|x: nat|
                (#[trigger] old(self).pairs().contains_key(x)) && mapping@.contains_key(x)
                    && mapping@[x] == y by {
                assert(bimap_pairs(new_map).contains_key(y as usize));
                let j = choose|j: int|
                    0 <= j < i && (mapping@[(#[trigger] es[j]).0 as nat]) as usize == y as usize;
                assert(old(self).pairs().contains_key(es[j].0 as nat));
                assert(mapping@[es[j].0 as nat] == y);
            }
            assert forall|a: usize, b: usize|
                #![trigger bimap_pairs(new_map)[a], bimap_pairs(new_map)[b]]
                bimap_pairs(new_map).contains_key(a) && bimap_pairs(new_map).contains_key(b) && a
                    != b implies bimap_pairs(new_map)[a] != bimap_pairs(new_map)[b] by {
                let ja = choose|j: int|
                    0 <= j < i && (mapping@[(#[trigger] es[j]).0 as nat]) as usize == a;
                let jb = choose|j: int|
                    0 <= j < i && (mapping@[(#[trigger] es[j]).0 as nat]) as usize == b;
                assert(bimap_pairs(new_map)[a] == es[ja].1);
                assert(bimap_pairs(new_map)[b] == es[jb].1);
                assert(ja != jb);
                assert(es[ja].0 != es[jb].0);
                assert(old_u.contains_key(es[ja].0));
                assert(old_u.contains_key(es[jb].0));
                assert(old_u[es[ja].0] != old_u[es[jb].0]);
            }
            assert forall|l: usize| #[trigger]
                bimap_pairs(new_map).contains_key(l) implies (l as nat) <= T1::max_value() && (
            bimap_pairs(new_map)[l] as nat) <= T2::max_value() by {
                let j = choose|j: int|
                    0 <= j < i && (mapping@[(#[trigger] es[j]).0 as nat]) as usize == l;
                assert(bimap_pairs(new_map)[l] == es[j].1);
                assert(old_u.contains_key(es[j].0));
                assert((old_u[es[j].0] as nat) <= T2::max_value());
            }
            assert(final(self).wf());
        }
        Ok(())
    }

    /// Rewrite every pair's right identifier through `mapping`, or report
    /// `IncompleteRemap` — leaving the linker untouched — when some held
    /// right identifier is missing from the mapping.
    pub fn update_right_ids(&mut self, mapping: &IdMapping<T2>) -> (r: Result<(), IdError>)
        requires
            old(self).wf(),
            mapping.wf(),
            forall|a: nat, b: nat| #![trigger mapping@[a], mapping@[b]]
                old(self).right_ids().contains(a) && old(self).right_ids().contains(b)
                    && mapping@.contains_key(a) && mapping@.contains_key(b) && a != b
                    ==> mapping@[a] != mapping@[b],
        ensures
            match r {
                Ok(u) => {
                    &&& final(self).wf()
                    &&& forall|x: nat| #[trigger]
                        old(self).right_ids().contains(x) ==> mapping@.contains_key(x)
                    &&& forall|l: nat| #[trigger]
                        old(self).pairs().contains_key(l) ==> final(self).pairs().contains_key(l)
                            && mapping@.contains_key(old(self).pairs()[l]) && final(self).pairs()[
                        l] == mapping@[old(self).pairs()[l]]
                    &&& forall|l: nat| #[trigger]
                        final(self).pairs().contains_key(l) ==> old(self).pairs().contains_key(l)
                },
                Err(e) => {
                    &&& e == IdError::IncompleteRemap
                    &&& exists|x: nat| (#[trigger] old(self).right_ids().contains(x))
                        && !mapping@.contains_key(x)
                    &&& *final(self) == *old(self)
                },
            },
    {
        proof {
            mapping.lemma_mapping_bounded();
            T1::lemma_max_bound();
            T2::lemma_max_bound();
        }
        let ghost old_u = bimap_pairs(self.map);
        let entries = bimap_entries(&self.map);
        let ghost es = entries@;
        let n = entries.len();
        proof {
            assert forall|j: int|
                0 <= j < n implies #[trigger] old_u.contains_key(es[j].0) && old_u[es[j].0]
                    == es[j].1 by {
                assert(bimap_pairs(self.map).contains_key(es[j].0));
            }
        }
        let mut new_map = bimap_new();
        bimap_clear(&mut new_map);
        let mut i: usize = 0;
        while i < n
            invariant
                self.wf(),
                old_u == bimap_pairs(self.map),
                mapping.wf(),
                forall|a: nat, b: nat| #![trigger mapping@[a], mapping@[b]]
                    self.right_ids().contains(a) && self.right_ids().contains(b)
                        && mapping@.contains_key(a) && mapping@.contains_key(b) && a != b
                        ==> mapping@[a] != mapping@[b],
                forall|x: nat| #[trigger]
                    mapping@.contains_key(x) ==> x <= T2::max_value() && mapping@[x]
                        <= T2::max_value(),
                T1::max_value() <= usize::MAX as nat,
                T2::max_value() <= usize::MAX as nat,
                es == entries@,
                n == es.len(),
                forall|j: int|
                    0 <= j < n ==> #[trigger] old_u.contains_key(es[j].0) && old_u[es[j].0]
                        == es[j].1,
                forall|j1: int, j2: int| 0 <= j1 < j2 < n ==> es[j1].0 != es[j2].0,
                forall|l: usize| #[trigger]
                    old_u.contains_key(l) ==> exists|j: int|
                        0 <= j < n && (#[trigger] es[j]) == (l, old_u[l]),
                i <= n,
                forall|j: int| 0 <= j < i ==> mapping@.contains_key((#[trigger] es[j]).1 as nat),
                forall|j: int|
                    0 <= j < i ==> bimap_pairs(new_map).contains_key((#[trigger] es[j]).0)
                        && bimap_pairs(new_map)[es[j].0] as nat == mapping@[es[j].1 as nat],
                forall|y: usize| #[trigger]
                    bimap_pairs(new_map).contains_key(y) ==> exists|j: int|
                        0 <= j < i && (#[trigger] es[j]).0 == y,
            decreases n - i,
        {
            let e = entries[i];
            match mapping.lookup_index(e.1) {
                Some(nr) => {
                    let ghost prev = bimap_pairs(new_map);
                    bimap_insert(&mut new_map, e.0, nr);
                    proof {
                        assert(old_u.contains_key(es[i as int].0));
                        assert(self.pairs().contains_key(es[i as int].0 as nat));
                        assert(self.right_ids().contains(es[i as int].1 as nat));
                        assert forall|x: usize| #[trigger]
                            prev.contains_key(x) implies x != e.0 && prev[x] != nr by {
                            let j = choose|j: int| 0 <= j < i && (#[trigger] es[j]).0 == x;
                            assert(es[j].0 != es[i as int].0);
                            assert(old_u.contains_key(es[j].0));
                            assert(self.pairs().contains_key(es[j].0 as nat));
                            assert(old_u[es[j].0] != old_u[es[i as int].0]);
                            assert(self.right_ids().contains(es[j].1 as nat));
                            assert(mapping@[es[j].1 as nat] != mapping@[es[i as int].1 as nat]);
                        }
                        assert(bimap_pairs(new_map) =~= prev.insert(e.0, nr));
                    }
                },
                None => {
                    proof {
                        assert(old(self).pairs().contains_key(e.0 as nat));
                        assert(old(self).right_ids().contains(e.1 as nat));
                    }
                    return Err(IdError::IncompleteRemap);
                },
            }
            i += 1;
        }
        self.map = new_map;
        proof {
            assert forall|x: nat| #[trigger]
                old(self).right_ids().contains(x) implies mapping@.contains_key(x) by {
                let l = choose|l: nat| #[trigger]
                    old(self).pairs().contains_key(l) && old(self).pairs()[l] == x;
                assert(old_u.contains_key(l as usize));
                let j = choose|j: int|
                    0 <= j < n && (#[trigger] es[j]) == (l as usize, old_u[l as usize]);
                assert(mapping@.contains_key(es[j].1 as nat));
            }
            assert forall|l: nat| #[trigger]
                old(self).pairs().contains_key(l) implies final(self).pairs().contains_key(l)
                    && mapping@.contains_key(old(self).pairs()[l]) && final(self).pairs()[l]
                    == mapping@[old(self).pairs()[l]] by {
                assert(old_u.contains_key(l as usize));
                let j = choose|j: int|
                    0 <= j < n && (#[trigger] es[j]) == (l as usize, old_u[l as usize]);
                assert(mapping@.contains_key(es[j].1 as nat));
                assert(bimap_pairs(new_map).contains_key(es[j].0));
            }
            assert forall|l: nat| #[trigger]
                final(self).pairs().contains_key(l) implies old(self).pairs().contains_key(
                l,
            ) by {
                assert(bimap_pairs(new_map).contains_key(l as usize));
                let j = choose|j: int| 0 <= j < i && (#[trigger] es[j]).0 == l as usize;
                assert(old_u.contains_key(es[j].0));
            }
            assert forall|a: usize, b: usize|
                #![trigger bimap_pairs(new_map)[a], bimap_pairs(new_map)[b]]
                bimap_pairs(new_map).contains_key(a) && bimap_pairs(new_map).contains_key(b) && a
                    != b implies bimap_pairs(new_map)[a] != bimap_pairs(new_map)[b] by {
                let ja = choose|j: int| 0 <= j < i && (#[trigger] es[j]).0 == a;
                let jb = choose|j: int| 0 <= j < i && (#[trigger] es[j]).0 == b;
                assert(ja != jb);
                assert(old_u.contains_key(es[ja].0));
                assert(old_u.contains_key(es[jb].0));
                assert(old_u[es[ja].0] != old_u[es[jb].0]);
                assert(old(self).pairs().contains_key(es[ja].0 as nat));
                assert(old(self).pairs().contains_key(es[jb].0 as nat));
                assert(old(self).pairs()[es[ja].0 as nat] == es[ja].1 as nat);
                assert(old(self).pairs()[es[jb].0 as nat] == es[jb].1 as nat);
                assert(old(self).right_ids().contains(es[ja].1 as nat));
                assert(old(self).right_ids().contains(es[jb].1 as nat));
                assert(mapping@[es[ja].1 as nat] != mapping@[es[jb].1 as nat]);
            }
            assert forall|l: usize| #[trigger]
                bimap_pairs(new_map).contains_key(l) implies (l as nat) <= T1::max_value() && (
            bimap_pairs(new_map)[l] as nat) <= T2::max_value() by {
                let j = choose|j: int| 0 <= j < i && (#[trigger] es[j]).0 == l;
                assert(old_u.contains_key(es[j].0));
                assert(mapping@.contains_key(es[j].1 as nat));
            }
            assert(final(self).wf());
        }
        Ok(())
    }

    /// Produce the adapter view that applies remappings to this linker's
    /// left identifier space.
    pub fn left_updater(self) -> (u: LeftLinkerUpdater<T1, T2>)
        requires
            self.wf(),
        ensures
            u.linker_view() == self,
    {
        LeftLinkerUpdater { linker: self }
    }

    /// Produce the adapter view that applies remappings to this linker's
    /// right identifier space.
    pub fn right_updater(self) -> (u: RightLinkerUpdater<T1, T2>)
        requires
            self.wf(),
        ensures
            u.linker_view() == self,
    {
        RightLinkerUpdater { linker: self }
    }
}

/// An adapter view of an [`IdLinker`] that accepts bulk remappings of the
/// left identifier space.
#[verifier::reject_recursive_types(T1)]
#[verifier::reject_recursive_types(T2)]
pub struct LeftLinkerUpdater<T1: Identifier, T2: Identifier> {
    linker: IdLinker<T1, T2>,
}

impl<T1: Identifier, T2: Identifier> LeftLinkerUpdater<T1, T2> {
    /// The wrapped linker stays well formed.
    #[verifier::type_invariant]
    spec fn type_inv(&self) -> bool {
        self.linker.wf()
    }

    /// The linker this adapter wraps.
    pub closed spec fn linker_view(&self) -> IdLinker<T1, T2> {
        self.linker
    }

    /// Give the wrapped linker back.
    pub fn into_inner(self) -> (r: IdLinker<T1, T2>)
        ensures
            r == self.linker_view(),
            r.wf(),
    {
        proof {
            use_type_invariant(&self);
        }
        let LeftLinkerUpdater { linker } = self;
        linker
    }
}

impl<T1: Identifier, T2: Identifier> UpdatableIdStore<T1> for LeftLinkerUpdater<T1, T2> {
    open spec fn held_ids(&self) -> Set<nat> {
        self.linker_view().pairs().dom()
    }

    fn update_ids(&mut self, mapping: &IdMapping<T1>)
        ensures
            final(self).linker_view().wf(),
            forall|x: nat| #[trigger]
                old(self).linker_view().pairs().contains_key(x) ==> mapping@.contains_key(x),
            forall|x: nat| #[trigger]
                old(self).linker_view().pairs().contains_key(x) ==> final(self).linker_view().pairs().contains_key(mapping@[x]) && final(self).linker_view().pairs()[mapping@[x]] == old(self).linker_view().pairs()[x],
            forall|y: nat| #[trigger]
                final(self).linker_view().pairs().contains_key(y) ==> exists|x: nat|
                    (#[trigger] old(self).linker_view().pairs().contains_key(x))
                        && mapping@.contains_key(x) && mapping@[x] == y,
    {
        proof {
            use_type_invariant(&*self);
        }
        let mut linker = IdLinker::<T1, T2>::new();
        std::mem::swap(&mut self.linker, &mut linker);
        let r = linker.update_left_ids(mapping);
        std::mem::swap(&mut self.linker, &mut linker);
        proof {
            match r {
                Ok(_) => {
                    assert forall|y: nat|
                        final(self).held_ids().contains(y) implies old(self).held_ids().map(
                        |x: nat| mapping@[x],
                    ).contains(y) by {
                        let x = choose|x: nat|
                            (#[trigger] old(self).linker_view().pairs().contains_key(x))
                                && mapping@.contains_key(x) && mapping@[x] == y;
                        assert(old(self).held_ids().contains(x));
                    }
                    assert forall|y: nat|
                        old(self).held_ids().map(|x: nat| mapping@[x]).contains(y) implies final(self).held_ids().contains(y) by {
                        let x = choose|x: nat|
                            old(self).held_ids().contains(x) && y == (|x0: nat| mapping@[x0])(x);
                        assert(old(self).linker_view().pairs().contains_key(x));
                        assert(final(self).linker_view().pairs().contains_key(mapping@[x]));
                    }
                    assert(final(self).held_ids() =~= old(self).held_ids().map(
                        |x: nat| mapping@[x],
                    ));
                },
                Err(_) => {
                    let x = choose|x: nat|
                        (#[trigger] old(self).linker_view().pairs().contains_key(x))
                            && !mapping@.contains_key(x);
                    assert(old(self).held_ids().contains(x));
                    assert(false);
                },
            }
        }
    }
}

/// An adapter view of an [`IdLinker`] that accepts bulk remappings of the
/// right identifier space.
#[verifier::reject_recursive_types(T1)]
#[verifier::reject_recursive_types(T2)]
pub struct RightLinkerUpdater<T1: Identifier, T2: Identifier> {
    linker: IdLinker<T1, T2>,
}

impl<T1: Identifier, T2: Identifier> RightLinkerUpdater<T1, T2> {
    /// The wrapped linker stays well formed.
    #[verifier::type_invariant]
    spec fn type_inv(&self) -> bool {
        self.linker.wf()
    }

    /// The linker this adapter wraps.
    pub closed spec fn linker_view(&self) -> IdLinker<T1, T2> {
        self.linker
    }

    /// Give the wrapped linker back.
    pub fn into_inner(self) -> (r: IdLinker<T1, T2>)
        ensures
            r == self.linker_view(),
            r.wf(),
    {
        proof {
            use_type_invariant(&self);
        }
        let RightLinkerUpdater { linker } = self;
        linker
    }
}

impl<T1: Identifier, T2: Identifier> UpdatableIdStore<T2> for RightLinkerUpdater<T1, T2> {
    open spec fn held_ids(&self) -> Set<nat> {
        self.linker_view().right_ids()
    }

    fn update_ids(&mut self, mapping: &IdMapping<T2>)
        ensures
            final(self).linker_view().wf(),
            forall|x: nat| #[trigger]
                old(self).linker_view().right_ids().contains(x) ==> mapping@.contains_key(x),
            forall|l: nat| #[trigger]
                old(self).linker_view().pairs().contains_key(l) ==> final(self).linker_view().pairs().contains_key(l) && mapping@.contains_key(
                    old(self).linker_view().pairs()[l],
                ) && final(self).linker_view().pairs()[l] == mapping@[old(self).linker_view().pairs()[l]],
            forall|l: nat| #[trigger]
                final(self).linker_view().pairs().contains_key(l) ==> old(self).linker_view().pairs().contains_key(l),
    {
        proof {
            use_type_invariant(&*self);
        }
        let mut linker = IdLinker::<T1, T2>::new();
        std::mem::swap(&mut self.linker, &mut linker);
        let r = linker.update_right_ids(mapping);
        std::mem::swap(&mut self.linker, &mut linker);
        proof {
            match r {
                Ok(_) => {
                    assert forall|y: nat|
                        final(self).held_ids().contains(y) implies old(self).held_ids().map(
                        |x: nat| mapping@[x],
                    ).contains(y) by {
                        let l = choose|l: nat| #[trigger]
                            final(self).linker_view().pairs().contains_key(l) && final(self).linker_view().pairs()[l] == y;
                        assert(old(self).linker_view().pairs().contains_key(l));
                        let x = old(self).linker_view().pairs()[l];
                        assert(old(self).held_ids().contains(x));
                        assert(mapping@[x] == y);
                    }
                    assert forall|y: nat|
                        old(self).held_ids().map(|x: nat| mapping@[x]).contains(y) implies final(self).held_ids().contains(y) by {
                        let x = choose|x: nat|
                            old(self).held_ids().contains(x) && y == (|x0: nat| mapping@[x0])(x);
                        let l = choose|l: nat| #[trigger]
                            old(self).linker_view().pairs().contains_key(l) && old(self).linker_view().pairs()[l] == x;
                        assert(final(self).linker_view().pairs().contains_key(l));
                        assert(final(self).linker_view().pairs()[l] == y);
                        assert(final(self).held_ids().contains(y));
                    }
                    assert(final(self).held_ids() =~= old(self).held_ids().map(
                        |x: nat| mapping@[x],
                    ));
                },
                Err(_) => {
                    let x = choose|x: nat|
                        (#[trigger] old(self).linker_view().right_ids().contains(x))
                            && !mapping@.contains_key(x);
                    assert(old(self).held_ids().contains(x));
                    assert(false);
                },
            }
        }
    }
}

} // verus!
