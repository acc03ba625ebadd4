//! An account's stones, filed by insertion order, rarity and collection.

use vstd::prelude::*;
use std::collections::HashMap;
use crate::stone::CardRarity;

verus! {

broadcast use vstd::std_specs::hash::group_hash_axioms;

/// The ids held by a vector of token ids, as character sequences.
pub open spec fn ids(v: Seq<String>) -> Seq<Seq<char>> {
    v.map_values(|s: String| s@)
}

pub(crate) proof fn lemma_ids_push(v: Seq<String>, x: String)
    ensures
        ids(v.push(x)) == ids(v).push(x@),
{
    assert(ids(v.push(x)) =~= ids(v).push(x@));
}

proof fn lemma_ids_remove(v: Seq<String>, i: int)
    requires
        0 <= i < v.len(),
    ensures
        ids(v.remove(i)) == ids(v).remove(i),
{
    assert(ids(v.remove(i)) =~= ids(v).remove(i));
}

proof fn lemma_push_contains<A>(s: Seq<A>, x: A)
    ensures
        forall|y: A| #[trigger] s.push(x).contains(y) <==> (s.contains(y) || y == x),
        !s.contains(x) && s.no_duplicates() ==> s.push(x).no_duplicates(),
{
    assert forall|y: A| #[trigger] s.push(x).contains(y) <==> (s.contains(y) || y == x) by {
        if s.contains(y) {
            let k = choose|k: int| 0 <= k < s.len() && s[k] == y;
            assert(s.push(x)[k] == y);
        }
        if y == x {
            assert(s.push(x)[s.len() as int] == y);
        }
    }
}

pub(crate) proof fn lemma_remove_contains<A>(s: Seq<A>, i: int)
    requires
        s.no_duplicates(),
        0 <= i < s.len(),
    ensures
        forall|y: A| #[trigger] s.remove(i).contains(y) <==> (s.contains(y) && y != s[i]),
        s.remove(i).no_duplicates(),
        s.remove_value(s[i]) == s.remove(i),
{
    let t = s.remove(i);
    assert forall|y: A| #[trigger] t.contains(y) <==> (s.contains(y) && y != s[i]) by {
        if t.contains(y) {
            let k = choose|k: int| 0 <= k < t.len() && t[k] == y;
            if k < i {
                assert(s[k] == y);
            } else {
                assert(s[k + 1] == y);
            }
        }
        if s.contains(y) && y != s[i] {
            let k = choose|k: int| 0 <= k < s.len() && s[k] == y;
            if k < i {
                assert(t[k] == y);
            } else {
                assert(t[k - 1] == y);
            }
        }
    }
    s.index_of_first_ensures(s[i]);
}

/// The index of `id` in `v`, if it is there.
pub(crate) fn position(v: &Vec<String>, id: &String) -> (r: Option<usize>)
    ensures
        r matches Some(i) ==> i < v@.len() && ids(v@)[i as int] == id@ && forall|j: int|
            0 <= j < i ==> ids(v@)[j] != id@,
        r is None ==> !ids(v@).contains(id@),
{
    let mut i: usize = 0;
    while i < v.len()
        invariant
            i <= v@.len(),
            forall|j: int| 0 <= j < i ==> ids(v@)[j] != id@,
        decreases v@.len() - i,
    {
        if v[i] == *id {
            return Some(i);
        }
        i += 1;
    }
    None
}


/// A copy of `v`, element by element.
fn copy_ids(v: &Vec<String>) -> (r: Vec<String>)
    ensures
        ids(r@) == ids(v@),
{
    let mut out: Vec<String> = Vec::new();
    let mut i: usize = 0;
    while i < v.len()
        invariant
            i <= v@.len(),
            ids(out@) == ids(v@).subrange(0, i as int),
        decreases v@.len() - i,
    {
        proof {
            lemma_ids_push(out@, v@[i as int]);
        }
        out.push(v[i].clone());
        i += 1;
        assert(ids(out@) =~= ids(v@).subrange(0, i as int));
    }
    assert(ids(out@) =~= ids(v@));
    out
}

/// The stones of one account, filed three ways: `flat` in the order they
/// were added, and the same ids split by rarity and by collection.
///
/// `placement` records, for each id, the rarity and collection it is filed
/// under; `wf` ties the three indexes to it.
pub struct Inventory {
    pub flat: Vec<String>,
    pub common: Vec<String>,
    pub uncommon: Vec<String>,
    pub rare: Vec<String>,
    pub legendary: Vec<String>,
    pub by_collection: HashMap<u32, Vec<String>>,
    pub placement: Ghost<Map<Seq<char>, (CardRarity, u32)>>,
}

impl Inventory {
    pub open spec fn flat_ids(&self) -> Seq<Seq<char>> {
        ids(self.flat@)
    }

    pub open spec fn rarity_ids(&self, r: CardRarity) -> Seq<Seq<char>> {
        match r {
            CardRarity::Common => ids(self.common@),
            CardRarity::UnCommon => ids(self.uncommon@),
            CardRarity::Rare => ids(self.rare@),
            CardRarity::Legendary => ids(self.legendary@),
        }
    }

    pub open spec fn collection_ids(&self, c: u32) -> Seq<Seq<char>> {
        if self.by_collection@.contains_key(c) {
            ids(self.by_collection@[c]@)
        } else {
            Seq::empty()
        }
    }

    /// Each id is held once in `flat`, and once in exactly one rarity bucket
    /// and one collection bucket: those that `placement` gives it.
    pub open spec fn wf(&self) -> bool {
        &&& self.flat_ids().no_duplicates()
        &&& forall|r: CardRarity| #[trigger] self.rarity_ids(r).no_duplicates()
        &&& forall|c: u32| #[trigger] self.collection_ids(c).no_duplicates()
        &&& forall|id: Seq<char>|
            #[trigger] self.placement@.contains_key(id) <==> self.flat_ids().contains(id)
        &&& forall|r: CardRarity, id: Seq<char>| #[trigger]
            self.rarity_ids(r).contains(id) <==> (self.flat_ids().contains(id)
                && self.placement@[id].0 == r)
        &&& forall|c: u32, id: Seq<char>| #[trigger]
            self.collection_ids(c).contains(id) <==> (self.flat_ids().contains(id)
                && self.placement@[id].1 == c)
    }

    /// An inventory with no stones.
    pub fn new() -> (r: Inventory)
        ensures
            r.wf(),
            r.flat_ids() == Seq::<Seq<char>>::empty(),
            forall|rr: CardRarity| #[trigger] r.rarity_ids(rr) == Seq::<Seq<char>>::empty(),
            forall|c: u32| #[trigger] r.collection_ids(c) == Seq::<Seq<char>>::empty(),
    {
        let r = Inventory {
            flat: Vec::new(),
            common: Vec::new(),
            uncommon: Vec::new(),
            rare: Vec::new(),
            legendary: Vec::new(),
            by_collection: HashMap::new(),
            placement: Ghost(Map::empty()),
        };
        assert forall|rr: CardRarity| #[trigger] r.rarity_ids(rr) == Seq::<Seq<char>>::empty() by {
            assert(r.rarity_ids(rr) =~= Seq::<Seq<char>>::empty());
        }
        assert(r.flat_ids() =~= Seq::<Seq<char>>::empty());
        r
    }

    /// The rarity bucket `r`, as a vector.
    pub fn rarity_bucket(&self, r: CardRarity) -> (v: &Vec<String>)
        ensures
            ids(v@) == self.rarity_ids(r),
    {
        match r {
            CardRarity::Common => &self.common,
            CardRarity::UnCommon => &self.uncommon,
            CardRarity::Rare => &self.rare,
            CardRarity::Legendary => &self.legendary,
        }
    }

    fn push_rarity(&mut self, r: CardRarity, id: String)
        ensures
            final(self).flat == old(self).flat,
            final(self).by_collection == old(self).by_collection,
            final(self).placement == old(self).placement,
            forall|rr: CardRarity| #[trigger]
                final(self).rarity_ids(rr) == if rr == r {
                    old(self).rarity_ids(rr).push(id@)
                } else {
                    old(self).rarity_ids(rr)
                },
    {
        proof {
            lemma_ids_push(self.common@, id);
            lemma_ids_push(self.uncommon@, id);
            lemma_ids_push(self.rare@, id);
            lemma_ids_push(self.legendary@, id);
        }
        match r {
            CardRarity::Common => self.common.push(id),
            CardRarity::UnCommon => self.uncommon.push(id),
            CardRarity::Rare => self.rare.push(id),
            CardRarity::Legendary => self.legendary.push(id),
        }
    }

    fn push_collection(&mut self, c: u32, id: String)
        ensures
            final(self).flat == old(self).flat,
            final(self).common == old(self).common,
            final(self).uncommon == old(self).uncommon,
            final(self).rare == old(self).rare,
            final(self).legendary == old(self).legendary,
            final(self).placement == old(self).placement,
            forall|cc: u32| #[trigger]
                final(self).collection_ids(cc) == if cc == c {
                    old(self).collection_ids(cc).push(id@)
                } else {
                    old(self).collection_ids(cc)
                },
    {
        let ghost id_view = id@;
        let mut bucket = match self.by_collection.remove(&c) {
            Some(v) => v,
            None => Vec::new(),
        };
        proof {
            if !old(self).by_collection@.contains_key(c) {
                assert(ids(bucket@) =~= Seq::<Seq<char>>::empty());
            }
            lemma_ids_push(bucket@, id);
        }
        bucket.push(id);
        self.by_collection.insert(c, bucket);
        assert forall|cc: u32| #[trigger]
            self.collection_ids(cc) == if cc == c {
                old(self).collection_ids(cc).push(id_view)
            } else {
                old(self).collection_ids(cc)
            } by {
            if cc != c {
                assert(self.by_collection@.contains_key(cc) == old(self).by_collection@.contains_key(cc));
            }
        }
    }

    /// Files a new stone under its rarity and collection. Returns false, and
    /// changes nothing, when the id is already held.
    pub fn add(&mut self, token_id: String, rarity: CardRarity, collection_id: u32) -> (r: bool)
        requires
            old(self).wf(),
        ensures
            final(self).wf(),
            r == !old(self).flat_ids().contains(token_id@),
            r ==> final(self).flat_ids() == old(self).flat_ids().push(token_id@),
            r ==> forall|rr: CardRarity| #[trigger]
                final(self).rarity_ids(rr) == if rr == rarity {
                    old(self).rarity_ids(rr).push(token_id@)
                } else {
                    old(self).rarity_ids(rr)
                },
            r ==> forall|c: u32| #[trigger]
                final(self).collection_ids(c) == if c == collection_id {
                    old(self).collection_ids(c).push(token_id@)
                } else {
                    old(self).collection_ids(c)
                },
            !r ==> final(self).flat_ids() == old(self).flat_ids(),
            !r ==> forall|rr: CardRarity| #[trigger]
                final(self).rarity_ids(rr) == old(self).rarity_ids(rr),
            !r ==> forall|c: u32| #[trigger]
                final(self).collection_ids(c) == old(self).collection_ids(c),
    {
        if position(&self.flat, &token_id).is_some() {
            return false;
        }
        let ghost id = token_id@;
        let ghost pre = *self;
        proof {
            lemma_ids_push(self.flat@, token_id);
            lemma_push_contains(pre.flat_ids(), id);
            self.placement@ = self.placement@.insert(id, (rarity, collection_id));
        }
        let flat_id = token_id.clone();
        let rarity_id = token_id.clone();
        self.flat.push(flat_id);
        let ghost mid = *self;
        assert(forall|rr: CardRarity| #[trigger] mid.rarity_ids(rr) == pre.rarity_ids(rr));
        self.push_rarity(rarity, rarity_id);
        let ghost mid2 = *self;
        self.push_collection(collection_id, token_id);
        assert(forall|rr: CardRarity| #[trigger] self.rarity_ids(rr) == mid2.rarity_ids(rr));
        assert forall|rr: CardRarity| #[trigger] self.rarity_ids(rr).no_duplicates() by {
            assert(!pre.rarity_ids(rr).contains(id));
            lemma_push_contains(pre.rarity_ids(rr), id);
        }
        assert forall|c: u32| #[trigger] self.collection_ids(c).no_duplicates() by {
            lemma_push_contains(pre.collection_ids(c), id);
        }
        assert forall|rr: CardRarity, x: Seq<char>| #[trigger]
            self.rarity_ids(rr).contains(x) <==> (self.flat_ids().contains(x)
                && self.placement@[x].0 == rr) by {
            assert(pre.rarity_ids(rr).contains(x) <==> (pre.flat_ids().contains(x)
                && pre.placement@[x].0 == rr));
            lemma_push_contains(pre.rarity_ids(rr), id);
        }
        assert forall|c: u32, x: Seq<char>| #[trigger]
            self.collection_ids(c).contains(x) <==> (self.flat_ids().contains(x)
                && self.placement@[x].1 == c) by {
            lemma_push_contains(pre.collection_ids(c), id);
        }
        true
    }

    fn remove_rarity_at(&mut self, r: CardRarity, i: usize)
        requires
            i < old(self).rarity_ids(r).len(),
        ensures
            final(self).flat == old(self).flat,
            final(self).by_collection == old(self).by_collection,
            final(self).placement == old(self).placement,
            forall|rr: CardRarity| #[trigger]
                final(self).rarity_ids(rr) == if rr == r {
                    old(self).rarity_ids(rr).remove(i as int)
                } else {
                    old(self).rarity_ids(rr)
                },
    {
        match r {
            CardRarity::Common => {
                proof {
                    lemma_ids_remove(self.common@, i as int);
                }
                self.common.remove(i);
            },
            CardRarity::UnCommon => {
                proof {
                    lemma_ids_remove(self.uncommon@, i as int);
                }
                self.uncommon.remove(i);
            },
            CardRarity::Rare => {
                proof {
                    lemma_ids_remove(self.rare@, i as int);
                }
                self.rare.remove(i);
            },
            CardRarity::Legendary => {
                proof {
                    lemma_ids_remove(self.legendary@, i as int);
                }
                self.legendary.remove(i);
            },
        }
    }

    fn remove_collection_at(&mut self, c: u32, i: usize)
        requires
            i < old(self).collection_ids(c).len(),
        ensures
            final(self).flat == old(self).flat,
            final(self).common == old(self).common,
            final(self).uncommon == old(self).uncommon,
            final(self).rare == old(self).rare,
            final(self).legendary == old(self).legendary,
            final(self).placement == old(self).placement,
            forall|cc: u32| #[trigger]
                final(self).collection_ids(cc) == if cc == c {
                    old(self).collection_ids(cc).remove(i as int)
                } else {
                    old(self).collection_ids(cc)
                },
    {
        let mut bucket = match self.by_collection.remove(&c) {
            Some(v) => v,
            None => Vec::new(),
        };
        proof {
            lemma_ids_remove(bucket@, i as int);
        }
        bucket.remove(i);
        self.by_collection.insert(c, bucket);
        assert forall|cc: u32| #[trigger]
            self.collection_ids(cc) == if cc == c {
                old(self).collection_ids(cc).remove(i as int)
            } else {
                old(self).collection_ids(cc)
            } by {
            if cc != c {
                assert(self.by_collection@.contains_key(cc) == old(self).by_collection@.contains_key(cc));
            }
        }
    }

    /// The index of `id` in the bucket of collection `c`, if it is there.
    fn collection_position(&self, c: u32, id: &String) -> (r: Option<usize>)
        ensures
            r matches Some(i) ==> i < self.collection_ids(c).len() && self.collection_ids(c)[i as int] == id@,
            r is None ==> !self.collection_ids(c).contains(id@),
    {
        match self.by_collection.get(&c) {
            Some(v) => position(v, id),
            None => None,
        }
    }

    /// Takes a stone out of all three indexes. It is taken only if it is
    /// filed under `rarity` and `collection_id`; otherwise nothing changes
    /// and the result is false.
    pub fn remove(&mut self, token_id: &String, rarity: CardRarity, collection_id: u32) -> (r: bool)
        requires
            old(self).wf(),
        ensures
            final(self).wf(),
            r == (old(self).rarity_ids(rarity).contains(token_id@) && old(self).collection_ids(
                collection_id,
            ).contains(token_id@)),
            r ==> final(self).flat_ids() == old(self).flat_ids().remove_value(token_id@),
            r ==> forall|rr: CardRarity| #[trigger]
                final(self).rarity_ids(rr) == if rr == rarity {
                    old(self).rarity_ids(rr).remove_value(token_id@)
                } else {
                    old(self).rarity_ids(rr)
                },
            r ==> forall|c: u32| #[trigger]
                final(self).collection_ids(c) == if c == collection_id {
                    old(self).collection_ids(c).remove_value(token_id@)
                } else {
                    old(self).collection_ids(c)
                },
            !r ==> final(self).flat_ids() == old(self).flat_ids(),
            !r ==> forall|rr: CardRarity| #[trigger]
                final(self).rarity_ids(rr) == old(self).rarity_ids(rr),
            !r ==> forall|c: u32| #[trigger]
                final(self).collection_ids(c) == old(self).collection_ids(c),
    {
        let ghost id = token_id@;
        let ghost pre = *self;
        let fi = position(&self.flat, token_id);
        let ri = position(self.rarity_bucket(rarity), token_id);
        let ci = self.collection_position(collection_id, token_id);
        match (fi, ri, ci) {
            (Some(f), Some(ri), Some(ci)) => {
                assert(pre.wf());
                assert(pre.rarity_ids(rarity)[ri as int] == id);
                assert(pre.rarity_ids(rarity).contains(id));
                assert(pre.placement@[id].0 == rarity);
                assert(pre.collection_ids(collection_id)[ci as int] == id);
                assert(pre.collection_ids(collection_id).contains(id));
                assert(pre.placement@[id].1 == collection_id);
                proof {
                    lemma_ids_remove(self.flat@, f as int);
                    lemma_remove_contains(pre.flat_ids(), f as int);
                    lemma_remove_contains(pre.rarity_ids(rarity), ri as int);
                    lemma_remove_contains(pre.collection_ids(collection_id), ci as int);
                    self.placement@ = self.placement@.remove(id);
                }
                self.flat.remove(f);
                let ghost mid = *self;
                assert(forall|rr: CardRarity| #[trigger] mid.rarity_ids(rr) == pre.rarity_ids(rr));
                self.remove_rarity_at(rarity, ri);
                let ghost mid2 = *self;
                assert(forall|c: u32| #[trigger] mid2.collection_ids(c) == pre.collection_ids(c));
                self.remove_collection_at(collection_id, ci);
                assert(forall|rr: CardRarity| #[trigger] self.rarity_ids(rr) == mid2.rarity_ids(rr));
                assert forall|rr: CardRarity| #[trigger] self.rarity_ids(rr).no_duplicates() by {
                    if rr == rarity {
                        lemma_remove_contains(pre.rarity_ids(rr), ri as int);
                    }
                }
                assert forall|c: u32| #[trigger] self.collection_ids(c).no_duplicates() by {
                    if c == collection_id {
                        lemma_remove_contains(pre.collection_ids(c), ci as int);
                    }
                }
                assert forall|rr: CardRarity, x: Seq<char>| #[trigger]
                    self.rarity_ids(rr).contains(x) <==> (self.flat_ids().contains(x)
                        && self.placement@[x].0 == rr) by {
                    assert(pre.rarity_ids(rr).contains(x) <==> (pre.flat_ids().contains(x)
                        && pre.placement@[x].0 == rr));
                    assert(pre.rarity_ids(rr).contains(id) <==> (pre.flat_ids().contains(id)
                        && pre.placement@[id].0 == rr));
                    if rr == rarity {
                        lemma_remove_contains(pre.rarity_ids(rr), ri as int);
                    }
                }
                assert forall|c: u32, x: Seq<char>| #[trigger]
                    self.collection_ids(c).contains(x) <==> (self.flat_ids().contains(x)
                        && self.placement@[x].1 == c) by {
                    assert(pre.collection_ids(c).contains(x) <==> (pre.flat_ids().contains(x)
                        && pre.placement@[x].1 == c));
                    assert(pre.collection_ids(c).contains(id) <==> (pre.flat_ids().contains(id)
                        && pre.placement@[id].1 == c));
                    if c == collection_id {
                        lemma_remove_contains(pre.collection_ids(c), ci as int);
                    }
                }
                true
            },
            _ => {
                proof {
                    if pre.rarity_ids(rarity).contains(id) && pre.collection_ids(collection_id).contains(id) {
                        assert(pre.flat_ids().contains(id));
                    }
                }
                false
            },
        }
    }

    /// Whether stone `token_id` is filed under `rarity` and `collection_id`.
    pub fn holds(&self, token_id: &String, rarity: CardRarity, collection_id: u32) -> (r: bool)
        ensures
            r == (self.rarity_ids(rarity).contains(token_id@) && self.collection_ids(
                collection_id,
            ).contains(token_id@)),
    {
        let in_rarity = position(self.rarity_bucket(rarity), token_id);
        let in_collection = self.collection_position(collection_id, token_id);
        proof {
            if let Some(k) = in_rarity {
                assert(self.rarity_ids(rarity)[k as int] == token_id@);
            }
            if let Some(k) = in_collection {
                assert(self.collection_ids(collection_id)[k as int] == token_id@);
            }
        }
        in_rarity.is_some() && in_collection.is_some()
    }

    /// The ids of all rarity buckets together.
    pub open spec fn rarity_union(&self) -> Set<Seq<char>> {
        self.rarity_ids(CardRarity::Common).to_set() + self.rarity_ids(CardRarity::UnCommon).to_set()
            + self.rarity_ids(CardRarity::Rare).to_set() + self.rarity_ids(
            CardRarity::Legendary,
        ).to_set()
    }

    /// The ids of all collection buckets together.
    pub open spec fn collection_union(&self) -> Set<Seq<char>> {
        Set::new(|id: Seq<char>| exists|c: u32| #[trigger] self.collection_ids(c).contains(id))
    }

    /// Whether an id is in the bucket of collection `c`.
    pub open spec fn in_collection(&self, c: u32) -> spec_fn(Seq<char>) -> bool {
        |x: Seq<char>| self.collection_ids(c).contains(x)
    }

    /// The ids that a listing with these filters walks, oldest first: the
    /// rarity bucket's ids that are also in the collection bucket when both
    /// filters are given, one bucket when one is, else all ids.
    pub open spec fn filtered_ids(&self, fr: Option<CardRarity>, fc: Option<u32>) -> Seq<Seq<char>> {
        match (fr, fc) {
            (Some(r), Some(c)) => self.rarity_ids(r).filter(self.in_collection(c)),
            (Some(r), None) => self.rarity_ids(r),
            (None, Some(c)) => self.collection_ids(c),
            (None, None) => self.flat_ids(),
        }
    }

    /// The ids of the stones that match the filters, oldest first.
    pub fn stone_ids(&self, filter_rarity: Option<CardRarity>, filter_collection: Option<u32>) -> (r:
        Vec<String>)
        ensures
            ids(r@) == self.filtered_ids(filter_rarity, filter_collection),
    {
        match (filter_rarity, filter_collection) {
            (Some(fr), Some(fc)) => {
                let bucket = self.rarity_bucket(fr);
                let mut out: Vec<String> = Vec::new();
                let mut i: usize = 0;
                while i < bucket.len()
                    invariant
                        i <= bucket@.len(),
                        ids(bucket@) == self.rarity_ids(fr),
                        ids(out@) == ids(bucket@).subrange(0, i as int).filter(self.in_collection(fc)),
                    decreases bucket@.len() - i,
                {
                    let ghost before = ids(bucket@).subrange(0, i as int);
                    assert(ids(bucket@).subrange(0, i + 1) == before.push(bucket@[i as int]@));
                    proof {
                        before.lemma_filter_push(bucket@[i as int]@, self.in_collection(fc));
                    }
                    let found = self.collection_position(fc, &bucket[i]);
                    let ghost x = bucket@[i as int]@;
                    assert(self.in_collection(fc)(x) == self.collection_ids(fc).contains(x));
                    assert(found.is_some() == self.collection_ids(fc).contains(x)) by {
                        if let Some(k) = found {
                            assert(self.collection_ids(fc)[k as int] == x);
                        }
                    }
                    if found.is_some() {
                        proof {
                            lemma_ids_push(out@, bucket@[i as int]);
                        }
                        out.push(bucket[i].clone());
                    }
                    i += 1;
                }
                assert(ids(bucket@).subrange(0, bucket@.len() as int) == ids(bucket@));
                out
            },
            (Some(fr), None) => copy_ids(self.rarity_bucket(fr)),
            (None, Some(fc)) => match self.by_collection.get(&fc) {
                Some(v) => copy_ids(v),
                None => {
                    let out: Vec<String> = Vec::new();
                    assert(ids(out@) =~= Seq::<Seq<char>>::empty());
                    out
                },
            },
            (None, None) => copy_ids(&self.flat),
        }
    }
}

/// Whatever sequence of additions and removals produced it, an inventory
/// holds the same ids in `flat`, in its rarity buckets taken together and in
/// its collection buckets taken together, and each id in one bucket of each.
pub proof fn lemma_indexes_agree(inv: Inventory)
    requires
        inv.wf(),
    ensures
        inv.flat_ids().to_set() == inv.rarity_union(),
        inv.flat_ids().to_set() == inv.collection_union(),
        forall|r1: CardRarity, r2: CardRarity, id: Seq<char>|
            #![trigger inv.rarity_ids(r1).contains(id), inv.rarity_ids(r2).contains(id)]
            inv.rarity_ids(r1).contains(id) && inv.rarity_ids(r2).contains(id) ==> r1 == r2,
        forall|c1: u32, c2: u32, id: Seq<char>|
            #![trigger inv.collection_ids(c1).contains(id), inv.collection_ids(c2).contains(id)]
            inv.collection_ids(c1).contains(id) && inv.collection_ids(c2).contains(id) ==> c1 == c2,
{
    assert forall|id: Seq<char>| inv.flat_ids().to_set().contains(id) <==> inv.rarity_union().contains(id) by {
        let r = inv.placement@[id].0;
        assert(inv.rarity_ids(r).contains(id) <==> inv.flat_ids().contains(id) && inv.placement@[id].0 == r);
        assert(inv.rarity_ids(CardRarity::Common).contains(id) ==> inv.flat_ids().contains(id));
        assert(inv.rarity_ids(CardRarity::UnCommon).contains(id) ==> inv.flat_ids().contains(id));
        assert(inv.rarity_ids(CardRarity::Rare).contains(id) ==> inv.flat_ids().contains(id));
        assert(inv.rarity_ids(CardRarity::Legendary).contains(id) ==> inv.flat_ids().contains(id));
    }
    assert(inv.flat_ids().to_set() =~= inv.rarity_union());
    assert forall|id: Seq<char>| inv.flat_ids().to_set().contains(id) <==> inv.collection_union().contains(id) by {
        let c = inv.placement@[id].1;
        assert(inv.collection_ids(c).contains(id) <==> inv.flat_ids().contains(id) && inv.placement@[id].1 == c);
    }
    assert(inv.flat_ids().to_set() =~= inv.collection_union());
}

} // verus!
