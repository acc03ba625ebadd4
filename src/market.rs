//! The list of tokens on sale, in listing order.

use vstd::prelude::*;
use crate::contract::{key_index, keys_unique};

verus! {

/// A market listing as plain ids: the token and the account selling it.
pub open spec fn listing_view(m: Seq<(String, String)>) -> Seq<(Seq<char>, Seq<char>)> {
    m.map_values(|e: (String, String)| (e.0@, e.1@))
}

/// The listed token ids, in listing order.
pub open spec fn listed_ids(v: Seq<(Seq<char>, Seq<char>)>) -> Seq<Seq<char>> {
    v.map_values(|e: (Seq<char>, Seq<char>)| e.0)
}

/// The listing after token `k` is offered by `o`: its seller is replaced if
/// it is listed, else it is appended.
pub open spec fn put(v: Seq<(Seq<char>, Seq<char>)>, k: Seq<char>, o: Seq<char>) -> Seq<
    (Seq<char>, Seq<char>),
> {
    match key_index(listed_ids(v), k) {
        Some(i) => v.update(i, (k, o)),
        None => v.push((k, o)),
    }
}

/// The listing after token `k` is withdrawn: the last entry takes its place.
pub open spec fn take(v: Seq<(Seq<char>, Seq<char>)>, k: Seq<char>) -> Seq<(Seq<char>, Seq<char>)> {
    match key_index(listed_ids(v), k) {
        Some(i) => v.update(i, v.last()).drop_last(),
        None => v,
    }
}

/// The listing after each token of `ks` in turn is offered by `o`.
pub open spec fn put_all(v: Seq<(Seq<char>, Seq<char>)>, ks: Seq<Seq<char>>, o: Seq<char>) -> Seq<
    (Seq<char>, Seq<char>),
>
    decreases ks.len(),
{
    if ks.len() == 0 {
        v
    } else {
        put(put_all(v, ks.drop_last(), o), ks.last(), o)
    }
}

/// The listing after each token of `ks` in turn is withdrawn.
pub open spec fn take_all(v: Seq<(Seq<char>, Seq<char>)>, ks: Seq<Seq<char>>) -> Seq<
    (Seq<char>, Seq<char>),
>
    decreases ks.len(),
{
    if ks.len() == 0 {
        v
    } else {
        take(take_all(v, ks.drop_last()), ks.last())
    }
}

/// The tokens on sale and their sellers, in listing order; a token is
/// listed once.
pub struct Market {
    pub entries: Vec<(String, String)>,
}

impl Market {
    pub open spec fn view(&self) -> Seq<(Seq<char>, Seq<char>)> {
        listing_view(self.entries@)
    }

    pub open spec fn wf(&self) -> bool {
        keys_unique(listed_ids(self.view()))
    }

    /// An empty market.
    pub fn new() -> (r: Market)
        ensures
            r.wf(),
            r.view() == Seq::<(Seq<char>, Seq<char>)>::empty(),
    {
        let r = Market { entries: Vec::new() };
        assert(r.view() =~= Seq::<(Seq<char>, Seq<char>)>::empty());
        r
    }

    fn find(&self, k: &String) -> (r: Option<usize>)
        requires
            self.wf(),
        ensures
            r matches Some(i) ==> key_index(listed_ids(self.view()), k@) == Some(i as int) && i
                < self.entries@.len(),
            r is None ==> key_index(listed_ids(self.view()), k@) is None,
    {
        let mut i: usize = 0;
        while i < self.entries.len()
            invariant
                i <= self.entries@.len(),
                self.wf(),
                forall|j: int| 0 <= j < i ==> listed_ids(self.view())[j] != k@,
            decreases self.entries@.len() - i,
        {
            if self.entries[i].0 == *k {
                proof {
                    crate::contract::lemma_key_index(listed_ids(self.view()), k@, i as int);
                }
                return Some(i);
            }
            i += 1;
        }
        None
    }

    /// Lists token `k` as sold by `o`.
    pub fn put(&mut self, k: String, o: String)
        requires
            old(self).wf(),
        ensures
            final(self).wf(),
            final(self).view() == put(old(self).view(), k@, o@),
    {
        let ghost pre = self.view();
        match self.find(&k) {
            Some(i) => {
                self.entries.set(i, (k, o));
                assert(self.view() =~= pre.update(i as int, (k@, o@)));
                assert(listed_ids(self.view()) =~= listed_ids(pre));
            },
            None => {
                self.entries.push((k, o));
                assert(self.view() =~= pre.push((k@, o@)));
                assert(listed_ids(self.view()) =~= listed_ids(pre).push(k@));
                assert forall|a: int, b: int| 0 <= a < b < listed_ids(self.view()).len() implies
                    #[trigger] listed_ids(self.view())[a] != #[trigger] listed_ids(self.view())[b] by {
                    if b == pre.len() {
                        assert(listed_ids(pre)[a] != k@);
                    } else {
                        assert(listed_ids(pre)[a] != listed_ids(pre)[b]);
                    }
                }
            },
        }
    }

    /// Withdraws token `k`, if it is listed.
    pub fn take(&mut self, k: &String)
        requires
            old(self).wf(),
        ensures
            final(self).wf(),
            final(self).view() == take(old(self).view(), k@),
    {
        let ghost pre = self.view();
        match self.find(k) {
            Some(i) => {
                let ghost ks = listed_ids(pre);
                self.entries.swap_remove(i);
                assert(self.view() =~= pre.update(i as int, pre.last()).drop_last());
                assert(listed_ids(self.view()) =~= ks.update(i as int, ks.last()).drop_last());
                assert forall|a: int, b: int| 0 <= a < b < listed_ids(self.view()).len() implies
                    #[trigger] listed_ids(self.view())[a] != #[trigger] listed_ids(self.view())[b] by {
                    let ao = if a == i { ks.len() - 1 } else { a };
                    let bo = if b == i { ks.len() - 1 } else { b };
                    assert(ks[ao] != ks[bo]);
                }
            },
            None => {},
        }
    }

    /// The ids of the listed tokens from position `start` on, at most `limit`.
    pub fn tokens(&self, start: u64, limit: u64) -> (r: Vec<String>)
        ensures
            ({
                let n = self.view().len();
                let lo = if start < n { start as int } else { n as int };
                let hi = if lo + limit < n { lo + limit } else { n as int };
                crate::inventory::ids(r@) == listed_ids(self.view()).subrange(lo, hi)
            }),
    {
        let n = self.entries.len();
        let lo: usize = if (start as u128) < n as u128 { start as usize } else { n };
        let hi: usize = if (limit as u128) < (n - lo) as u128 { lo + limit as usize } else { n };
        let mut out: Vec<String> = Vec::new();
        let mut i = lo;
        while i < hi
            invariant
                lo <= i <= hi <= n == self.entries@.len(),
                crate::inventory::ids(out@) == listed_ids(self.view()).subrange(lo as int, i as int),
            decreases hi - i,
        {
            let ghost before = out@;
            out.push(self.entries[i].0.clone());
            assert(crate::inventory::ids(out@) =~= crate::inventory::ids(before).push(self.entries@[i as int].0@));
            i += 1;
            assert(crate::inventory::ids(out@) =~= listed_ids(self.view()).subrange(lo as int, i as int));
        }
        out
    }
}

} // verus!
