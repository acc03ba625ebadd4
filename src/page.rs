//! Paging through a list, newest first.

use vstd::prelude::*;
use crate::inventory::{ids, lemma_ids_push};

verus! {

/// Page `p` (counted from 1) of size `l` over `s` read newest first: the
/// newest `(p - 1) * l` items are skipped and the next `l` taken, as far as
/// there are any.
pub open spec fn page_of<A>(s: Seq<A>, p: int, l: int) -> Seq<A> {
    let start = if (p - 1) * l < s.len() {
        (p - 1) * l
    } else {
        s.len() as int
    };
    let end = if start + l < s.len() {
        start + l
    } else {
        s.len() as int
    };
    s.reverse().subrange(start, end)
}

/// Pages `1..=k` of size `l` over `s`, one after the other.
pub open spec fn pages_upto<A>(s: Seq<A>, l: int, k: nat) -> Seq<A>
    decreases k,
{
    if k == 0 {
        Seq::empty()
    } else {
        pages_upto(s, l, (k - 1) as nat) + page_of(s, k as int, l)
    }
}

/// How many pages of size `l` it takes to list `n` items.
pub open spec fn page_count(n: int, l: int) -> nat {
    ((n + l - 1) / l) as nat
}

/// The total number of ids and page `page_num` of size `page_limit` over
/// them, newest first; both numbers are at least 1.
pub fn paginate(list: &Vec<String>, page_num: u64, page_limit: u64) -> (r: (u64, Vec<String>))
    requires
        page_num >= 1,
        page_limit >= 1,
    ensures
        r.0 == list@.len(),
        ids(r.1@) == page_of(ids(list@), page_num as int, page_limit as int),
{
    let n = list.len();
    assert((page_num as u128 - 1) * (page_limit as u128) <= u64::MAX * u64::MAX) by (nonlinear_arith)
        requires
            1 <= page_num <= u64::MAX,
            1 <= page_limit <= u64::MAX,
    ;
    let skip: u128 = (page_num as u128 - 1) * (page_limit as u128);
    let ghost s = ids(list@);
    let mut out: Vec<String> = Vec::new();
    if skip < n as u128 {
        let start = skip as usize;
        let end = if (page_limit as u128) < (n - start) as u128 {
            start + page_limit as usize
        } else {
            n
        };
        let mut i = start;
        while i < end
            invariant
                start <= i <= end <= n,
                n == list@.len(),
                s == ids(list@),
                ids(out@) == s.reverse().subrange(start as int, i as int),
            decreases end - i,
        {
            proof {
                lemma_ids_push(out@, list@[n - 1 - i]);
            }
            out.push(list[n - 1 - i].clone());
            i += 1;
            assert(ids(out@) =~= s.reverse().subrange(start as int, i as int));
        }
        assert(ids(out@) == page_of(s, page_num as int, page_limit as int));
    } else {
        assert(ids(out@) =~= page_of(s, page_num as int, page_limit as int));
    }
    (n as u64, out)
}

proof fn lemma_pages_prefix<A>(s: Seq<A>, l: int, k: nat)
    requires
        l >= 1,
    ensures
        pages_upto(s, l, k) == s.reverse().subrange(
            0,
            if k * l < s.len() {
                k * l
            } else {
                s.len() as int
            },
        ),
    decreases k,
{
    let n = s.len() as int;
    if k == 0 {
        assert(pages_upto(s, l, k) =~= s.reverse().subrange(0, 0));
    } else {
        let j = (k - 1) as nat;
        lemma_pages_prefix(s, l, j);
        assert(k * l == j * l + l) by (nonlinear_arith)
            requires
                k == j + 1,
        ;
        assert(j * l >= 0) by (nonlinear_arith)
            requires
                l >= 1,
        ;
        assert(s.reverse().len() == n);
        let mid = if j * l < n {
            j * l
        } else {
            n
        };
        let hi = if k * l < n {
            k * l
        } else {
            n
        };
        assert((k as int - 1) * l == j * l);
        assert(page_of(s, k as int, l) == s.reverse().subrange(mid, hi));
        assert(s.reverse().subrange(0, mid) + s.reverse().subrange(mid, hi) =~= s.reverse().subrange(
            0,
            hi,
        ));
    }
}

/// Listing every page in turn, with one page size, gives back all the ids
/// newest first, each once: none is repeated or left out.
pub proof fn lemma_pages_cover<A>(s: Seq<A>, l: int)
    requires
        l >= 1,
    ensures
        pages_upto(s, l, page_count(s.len() as int, l)) == s.reverse(),
        s.no_duplicates() ==> pages_upto(s, l, page_count(s.len() as int, l)).no_duplicates(),
{
    let n = s.len() as int;
    let k = page_count(n, l);
    lemma_pages_prefix(s, l, k);
    assert(k * l >= n) by (nonlinear_arith)
        requires
            k == (n + l - 1) / l,
            l >= 1,
            n >= 0,
    ;
    assert(s.reverse().subrange(0, n) =~= s.reverse());
    if s.no_duplicates() {
        let r = s.reverse();
        assert forall|i: int, j: int| 0 <= i < r.len() && 0 <= j < r.len() && i != j implies r[i]
            != r[j] by {
            assert(r[i] == s[n - 1 - i]);
            assert(r[j] == s[n - 1 - j]);
        }
    }
}

} // verus!
