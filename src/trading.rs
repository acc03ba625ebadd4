//! Putting stones and mines on sale and taking them off.

use vstd::prelude::*;
use crate::contract::{Contract, account_index, mine_ids, stone_ids};
use crate::inventory::{ids, position};
use crate::market::{listed_ids, put_all, take_all};
use crate::mine::Mine;
use crate::stone::Stone;

verus! {

/// Why a market listing was refused.
#[derive(Debug, Clone, Copy, PartialEq, Eq, Structural)]
pub enum MarketError {
    /// The account does not own one of the tokens.
    NotOwned,
    /// One of the tokens does not exist.
    UnknownToken,
}

/// A price list as plain values.
pub open spec fn price_view(l: Seq<(String, u128)>) -> Seq<(Seq<char>, u128)> {
    l.map_values(|e: (String, u128)| (e.0@, e.1))
}

/// The token ids of a price list.
pub open spec fn priced_ids(l: Seq<(Seq<char>, u128)>) -> Seq<Seq<char>> {
    l.map_values(|e: (Seq<char>, u128)| e.0)
}

/// The stones after stone `id` is put on sale at price `p`.
pub open spec fn price_stone(ss: Seq<Stone>, id: Seq<char>, p: u128) -> Seq<Stone> {
    ss.map_values(
        |st: Stone|
            if st.token_id@ == id {
                Stone { sale_price: Some(p), ..st }
            } else {
                st
            },
    )
}

/// The stones after each entry of a price list in turn.
pub open spec fn price_stones(ss: Seq<Stone>, l: Seq<(Seq<char>, u128)>) -> Seq<Stone>
    decreases l.len(),
{
    if l.len() == 0 {
        ss
    } else {
        price_stone(price_stones(ss, l.drop_last()), l.last().0, l.last().1)
    }
}

/// The mines after mine `id` is put on sale at price `p`.
pub open spec fn price_mine(ms: Seq<Mine>, id: Seq<char>, p: u128) -> Seq<Mine> {
    ms.map_values(
        |m: Mine|
            if m.token_id@ == id {
                Mine { sale_price: Some(p), ..m }
            } else {
                m
            },
    )
}

/// The mines after each entry of a price list in turn.
pub open spec fn price_mines(ms: Seq<Mine>, l: Seq<(Seq<char>, u128)>) -> Seq<Mine>
    decreases l.len(),
{
    if l.len() == 0 {
        ms
    } else {
        price_mine(price_mines(ms, l.drop_last()), l.last().0, l.last().1)
    }
}

impl Contract {

    /// Why `owner` may not put the tokens of price list `l` on sale, if it
    /// may not: it must hold every token, in its stones (`stones`) or its
    /// mines, and every token must exist.
    pub open spec fn spec_listing_refusal(
        &self,
        owner: Seq<char>,
        l: Seq<(String, u128)>,
        stones: bool,
    ) -> Option<MarketError> {
        if exists|i: int|
            0 <= i < l.len() && !(if stones {
                self.flat_of(owner)
            } else {
                self.mines_of(owner)
            }).contains(#[trigger] priced_ids(price_view(l))[i]) {
            Some(MarketError::NotOwned)
        } else if exists|i: int|
            0 <= i < l.len() && !(if stones {
                self.stone_of(#[trigger] priced_ids(price_view(l))[i]) is Some
            } else {
                self.mine_of(priced_ids(price_view(l))[i]) is Some
            }) {
            Some(MarketError::UnknownToken)
        } else {
            None
        }
    }

    /// Why `owner` may not put the tokens of `l` on sale, if it may not.
    pub fn listing_refusal(&self, owner: &String, l: &Vec<(String, u128)>, stones: bool) -> (r:
        Option<MarketError>)
        requires
            self.wf(),
        ensures
            r == self.spec_listing_refusal(owner@, l@, stones),
    {
        let ghost ks = priced_ids(price_view(l@));
        let ghost held = if stones {
            self.flat_of(owner@)
        } else {
            self.mines_of(owner@)
        };
        let ai = self.find_account(owner);
        let mut i: usize = 0;
        while i < l.len()
            invariant
                i <= l@.len(),
                self.wf(),
                ks == priced_ids(price_view(l@)),
                held == if stones {
                    self.flat_of(owner@)
                } else {
                    self.mines_of(owner@)
                },
                ai matches Some(k) ==> account_index(self.accounts@, owner@) == Some(k as int)
                    && k < self.accounts@.len(),
                ai is None ==> account_index(self.accounts@, owner@) is None,
                forall|j: int| 0 <= j < i ==> held.contains(#[trigger] ks[j]),
            decreases l@.len() - i,
        {
            assert(ks[i as int] == l@[i as int].0@);
            let found = match ai {
                Some(k) => if stones {
                    position(&self.accounts[k].stones.flat, &l[i].0)
                } else {
                    position(&self.accounts[k].mines, &l[i].0)
                },
                None => None,
            };
            match found {
                Some(p) => {
                    assert(held[p as int] == ks[i as int]);
                },
                None => {
                    assert(!held.contains(ks[i as int]));
                    return Some(MarketError::NotOwned);
                },
            }
            i += 1;
        }
        let mut i: usize = 0;
        while i < l.len()
            invariant
                i <= l@.len(),
                self.wf(),
                ks == priced_ids(price_view(l@)),
                forall|j: int| 0 <= j < l@.len() ==> held.contains(#[trigger] ks[j]),
                held == if stones {
                    self.flat_of(owner@)
                } else {
                    self.mines_of(owner@)
                },
                forall|j: int|
                    0 <= j < i ==> (if stones {
                        self.stone_of(#[trigger] ks[j]) is Some
                    } else {
                        self.mine_of(ks[j]) is Some
                    }),
            decreases l@.len() - i,
        {
            assert(ks[i as int] == l@[i as int].0@);
            let exists_here = if stones {
                self.find_stone(&l[i].0).is_some()
            } else {
                self.find_mine(&l[i].0).is_some()
            };
            if !exists_here {
                return Some(MarketError::UnknownToken);
            }
            i += 1;
        }
        None
    }

    fn set_stone_price(&mut self, id: &String, p: u128)
        requires
            old(self).wf(),
            old(self).stone_of(id@) is Some,
        ensures
            final(self).wf(),
            final(self).stones@ == price_stone(old(self).stones@, id@, p),
            stone_ids(final(self).stones@) == stone_ids(old(self).stones@),
            final(self).accounts == old(self).accounts,
            final(self).mines == old(self).mines,
            final(self).market == old(self).market,
            final(self).collections == old(self).collections,
            final(self).ft_storage_accounts == old(self).ft_storage_accounts,
            final(self).owner_id == old(self).owner_id,
            final(self).stone_minted_count == old(self).stone_minted_count,
            final(self).stone_killed_count == old(self).stone_killed_count,
            final(self).small_mines_count == old(self).small_mines_count,
            final(self).medium_mines_count == old(self).medium_mines_count,
            final(self).large_mines_count == old(self).large_mines_count,
    {
        let ghost pre = self.stones@;
        let si = match self.find_stone(id) {
            Some(i) => i,
            None => {
                return;
            },
        };
        let mut st = self.stones[si].copy();
        st.sale_price = Some(p);
        self.stones.set(si, st);
        assert forall|j: int| 0 <= j < pre.len() && j != si implies pre[j].token_id@ != id@ by {
            assert(stone_ids(pre)[j] == pre[j].token_id@);
            assert(stone_ids(pre)[si as int] == id@);
            if j < si {
                assert(stone_ids(pre)[j] != stone_ids(pre)[si as int]);
            } else {
                assert(stone_ids(pre)[si as int] != stone_ids(pre)[j]);
            }
        }
        assert(self.stones@ =~= price_stone(pre, id@, p));
        assert(stone_ids(self.stones@) =~= stone_ids(pre));
    }

    fn set_mine_price(&mut self, id: &String, p: u128)
        requires
            old(self).wf(),
            old(self).mine_of(id@) is Some,
        ensures
            final(self).wf(),
            final(self).mines@ == price_mine(old(self).mines@, id@, p),
            mine_ids(final(self).mines@) == mine_ids(old(self).mines@),
            final(self).accounts == old(self).accounts,
            final(self).stones == old(self).stones,
            final(self).market == old(self).market,
            final(self).collections == old(self).collections,
            final(self).ft_storage_accounts == old(self).ft_storage_accounts,
            final(self).owner_id == old(self).owner_id,
            final(self).stone_minted_count == old(self).stone_minted_count,
            final(self).stone_killed_count == old(self).stone_killed_count,
            final(self).small_mines_count == old(self).small_mines_count,
            final(self).medium_mines_count == old(self).medium_mines_count,
            final(self).large_mines_count == old(self).large_mines_count,
    {
        let ghost pre = self.mines@;
        let mi = match self.find_mine(id) {
            Some(i) => i,
            None => {
                return;
            },
        };
        let mut m = self.mines[mi].copy();
        m.sale_price = Some(p);
        self.mines.set(mi, m);
        assert forall|j: int| 0 <= j < pre.len() && j != mi implies pre[j].token_id@ != id@ by {
            assert(mine_ids(pre)[j] == pre[j].token_id@);
            assert(mine_ids(pre)[mi as int] == id@);
            if j < mi {
                assert(mine_ids(pre)[j] != mine_ids(pre)[mi as int]);
            } else {
                assert(mine_ids(pre)[mi as int] != mine_ids(pre)[j]);
            }
        }
        assert(self.mines@ =~= price_mine(pre, id@, p));
        assert(mine_ids(self.mines@) =~= mine_ids(pre));
    }

    /// Puts stones of `owner`, which holds them all, on sale, each at its
    /// price, listing `owner` as the seller.
    pub fn publish_stones_on_market(&mut self, owner: &String, token_price_list: Vec<(String, u128)>)
        requires
            old(self).wf(),
            old(self).spec_listing_refusal(owner@, token_price_list@, true) is None,
        ensures
            final(self).wf(),
            final(self).market.view() == put_all(
                old(self).market.view(),
                priced_ids(price_view(token_price_list@)),
                owner@,
            ),
            final(self).stones@ == price_stones(old(self).stones@, price_view(token_price_list@)),
            final(self).accounts == old(self).accounts,
            final(self).mines == old(self).mines,
            final(self).collections == old(self).collections,
            final(self).ft_storage_accounts == old(self).ft_storage_accounts,
            final(self).counters() == old(self).counters(),
            final(self).owner_id == old(self).owner_id,
    {
        let ghost pre = *self;
        let ghost lv = price_view(token_price_list@);
        let ghost ks = priced_ids(lv);
        let mut i: usize = 0;
        while i < token_price_list.len()
            invariant
                i <= token_price_list@.len(),
                self.wf(),
                lv == price_view(token_price_list@),
                ks == priced_ids(lv),
                forall|j: int| 0 <= j < ks.len() ==> pre.stone_of(#[trigger] ks[j]) is Some,
                stone_ids(self.stones@) == stone_ids(pre.stones@),
                self.market.view() == put_all(pre.market.view(), ks.subrange(0, i as int), owner@),
                self.stones@ == price_stones(pre.stones@, lv.subrange(0, i as int)),
                self.accounts == pre.accounts,
                self.mines == pre.mines,
                self.collections == pre.collections,
                self.ft_storage_accounts == pre.ft_storage_accounts,
                self.counters() == pre.counters(),
                self.owner_id == pre.owner_id,
            decreases token_price_list@.len() - i,
        {
            let id = &token_price_list[i].0;
            let p = token_price_list[i].1;
            assert(ks[i as int] == id@);
            assert(self.stone_of(id@) is Some) by {
                assert(pre.stone_of(ks[i as int]) is Some);
            }
            self.market.put(id.clone(), owner.clone());
            self.set_stone_price(id, p);
            assert(ks.subrange(0, i + 1).drop_last() =~= ks.subrange(0, i as int));
            assert(lv.subrange(0, i + 1).drop_last() =~= lv.subrange(0, i as int));
            i += 1;
        }
        assert(ks.subrange(0, ks.len() as int) =~= ks);
        assert(lv.subrange(0, lv.len() as int) =~= lv);
    }

    /// Puts mines of `owner`, which holds them all, on sale, each at its
    /// price, listing `owner` as the seller.
    pub fn publish_mines_on_market(&mut self, owner: &String, token_price_list: Vec<(String, u128)>)
        requires
            old(self).wf(),
            old(self).spec_listing_refusal(owner@, token_price_list@, false) is None,
        ensures
            final(self).wf(),
            final(self).market.view() == put_all(
                old(self).market.view(),
                priced_ids(price_view(token_price_list@)),
                owner@,
            ),
            final(self).mines@ == price_mines(old(self).mines@, price_view(token_price_list@)),
            final(self).accounts == old(self).accounts,
            final(self).stones == old(self).stones,
            final(self).collections == old(self).collections,
            final(self).ft_storage_accounts == old(self).ft_storage_accounts,
            final(self).counters() == old(self).counters(),
            final(self).owner_id == old(self).owner_id,
    {
        let ghost pre = *self;
        let ghost lv = price_view(token_price_list@);
        let ghost ks = priced_ids(lv);
        let mut i: usize = 0;
        while i < token_price_list.len()
            invariant
                i <= token_price_list@.len(),
                self.wf(),
                lv == price_view(token_price_list@),
                ks == priced_ids(lv),
                forall|j: int| 0 <= j < ks.len() ==> pre.mine_of(#[trigger] ks[j]) is Some,
                mine_ids(self.mines@) == mine_ids(pre.mines@),
                self.market.view() == put_all(pre.market.view(), ks.subrange(0, i as int), owner@),
                self.mines@ == price_mines(pre.mines@, lv.subrange(0, i as int)),
                self.accounts == pre.accounts,
                self.stones == pre.stones,
                self.collections == pre.collections,
                self.ft_storage_accounts == pre.ft_storage_accounts,
                self.counters() == pre.counters(),
                self.owner_id == pre.owner_id,
            decreases token_price_list@.len() - i,
        {
            let id = &token_price_list[i].0;
            let p = token_price_list[i].1;
            assert(ks[i as int] == id@);
            assert(self.mine_of(id@) is Some) by {
                assert(pre.mine_of(ks[i as int]) is Some);
            }
            self.market.put(id.clone(), owner.clone());
            self.set_mine_price(id, p);
            assert(ks.subrange(0, i + 1).drop_last() =~= ks.subrange(0, i as int));
            assert(lv.subrange(0, i + 1).drop_last() =~= lv.subrange(0, i as int));
            i += 1;
        }
        assert(ks.subrange(0, ks.len() as int) =~= ks);
        assert(lv.subrange(0, lv.len() as int) =~= lv);
    }

    /// Whether every id of `l` is held by `owner`, in its stones (`stones`)
    /// or its mines.
    pub open spec fn holds_every(&self, owner: Seq<char>, l: Seq<String>, stones: bool) -> bool {
        forall|i: int|
            0 <= i < l.len() ==> (if stones {
                self.flat_of(owner)
            } else {
                self.mines_of(owner)
            }).contains(#[trigger] ids(l)[i])
    }

    /// Whether every id of `l` is held by `owner`, in its stones (`stones`)
    /// or its mines.
    pub fn holds_all(&self, owner: &String, l: &Vec<String>, stones: bool) -> (r: bool)
        requires
            self.wf(),
        ensures
            r == self.holds_every(owner@, l@, stones),
    {
        let ghost held = if stones {
            self.flat_of(owner@)
        } else {
            self.mines_of(owner@)
        };
        let ai = self.find_account(owner);
        let mut i: usize = 0;
        while i < l.len()
            invariant
                i <= l@.len(),
                self.wf(),
                held == if stones {
                    self.flat_of(owner@)
                } else {
                    self.mines_of(owner@)
                },
                ai matches Some(k) ==> account_index(self.accounts@, owner@) == Some(k as int)
                    && k < self.accounts@.len(),
                ai is None ==> account_index(self.accounts@, owner@) is None,
                forall|j: int| 0 <= j < i ==> held.contains(#[trigger] ids(l@)[j]),
            decreases l@.len() - i,
        {
            let found = match ai {
                Some(k) => if stones {
                    position(&self.accounts[k].stones.flat, &l[i])
                } else {
                    position(&self.accounts[k].mines, &l[i])
                },
                None => None,
            };
            match found {
                Some(p) => {
                    assert(held[p as int] == ids(l@)[i as int]);
                },
                None => {
                    assert(!held.contains(ids(l@)[i as int]));
                    return false;
                },
            }
            i += 1;
        }
        true
    }

    fn withdraw_all(&mut self, token_list: &Vec<String>)
        requires
            old(self).wf(),
        ensures
            final(self).wf(),
            final(self).market.view() == take_all(old(self).market.view(), ids(token_list@)),
            final(self).accounts == old(self).accounts,
            final(self).stones == old(self).stones,
            final(self).mines == old(self).mines,
            final(self).collections == old(self).collections,
            final(self).ft_storage_accounts == old(self).ft_storage_accounts,
            final(self).counters() == old(self).counters(),
            final(self).owner_id == old(self).owner_id,
    {
        let ghost pre = *self;
        let ghost ks = ids(token_list@);
        let mut i: usize = 0;
        while i < token_list.len()
            invariant
                i <= token_list@.len(),
                self.wf(),
                ks == ids(token_list@),
                self.market.view() == take_all(pre.market.view(), ks.subrange(0, i as int)),
                self.accounts == pre.accounts,
                self.stones == pre.stones,
                self.mines == pre.mines,
                self.collections == pre.collections,
                self.ft_storage_accounts == pre.ft_storage_accounts,
                self.counters() == pre.counters(),
                self.owner_id == pre.owner_id,
            decreases token_list@.len() - i,
        {
            self.market.take(&token_list[i]);
            assert(ks.subrange(0, i + 1).drop_last() =~= ks.subrange(0, i as int));
            i += 1;
        }
        assert(ks.subrange(0, ks.len() as int) =~= ks);
    }

    /// Takes stones of `owner`, which holds them all, off the market.
    pub fn remove_stones_from_market(&mut self, owner: &String, token_list: Vec<String>)
        requires
            old(self).wf(),
            old(self).holds_every(owner@, token_list@, true),
        ensures
            final(self).wf(),
            final(self).market.view() == take_all(old(self).market.view(), ids(token_list@)),
            final(self).accounts == old(self).accounts,
            final(self).stones == old(self).stones,
            final(self).mines == old(self).mines,
            final(self).collections == old(self).collections,
            final(self).ft_storage_accounts == old(self).ft_storage_accounts,
            final(self).counters() == old(self).counters(),
            final(self).owner_id == old(self).owner_id,
    {
        self.withdraw_all(&token_list);
    }

    /// Takes mines of `owner`, which holds them all, off the market.
    pub fn remove_mines_from_market(&mut self, owner: &String, token_list: Vec<String>)
        requires
            old(self).wf(),
            old(self).holds_every(owner@, token_list@, false),
        ensures
            final(self).wf(),
            final(self).market.view() == take_all(old(self).market.view(), ids(token_list@)),
            final(self).accounts == old(self).accounts,
            final(self).stones == old(self).stones,
            final(self).mines == old(self).mines,
            final(self).collections == old(self).collections,
            final(self).ft_storage_accounts == old(self).ft_storage_accounts,
            final(self).counters() == old(self).counters(),
            final(self).owner_id == old(self).owner_id,
    {
        self.withdraw_all(&token_list);
    }

    /// The ids of the listed tokens from position `start` on, at most `limit`.
    pub fn get_tokens_from_market(&self, start: u64, limit: u64) -> (r: Vec<String>)
        ensures
            ({
                let n = self.market.view().len();
                let lo = if start < n { start as int } else { n as int };
                let hi = if lo + limit < n { lo + limit } else { n as int };
                ids(r@) == listed_ids(self.market.view()).subrange(lo, hi)
            }),
    {
        self.market.tokens(start, limit)
    }

    /// The listed stones among the tokens from position `start` on, at most
    /// `limit` tokens.
    pub fn get_stones_from_market(&self, start: u64, limit: u64) -> (r: Vec<Stone>)
        requires
            self.wf(),
        ensures
            ({
                let n = self.market.view().len();
                let lo = if start < n { start as int } else { n as int };
                let hi = if lo + limit < n { lo + limit } else { n as int };
                stone_ids(r@) == listed_ids(self.market.view()).subrange(lo, hi).filter(self.stored())
            }),
    {
        let tokens = self.get_tokens_from_market(start, limit);
        self.get_stones_by_id(&tokens)
    }

    /// The listed mines among the tokens from position `start` on, at most
    /// `limit` tokens.
    pub fn get_mines_from_market(&self, start: u64, limit: u64) -> (r: Vec<Mine>)
        requires
            self.wf(),
        ensures
            ({
                let n = self.market.view().len();
                let lo = if start < n { start as int } else { n as int };
                let hi = if lo + limit < n { lo + limit } else { n as int };
                mine_ids(r@) == listed_ids(self.market.view()).subrange(lo, hi).filter(self.mine_stored())
            }),
    {
        let tokens = self.get_tokens_from_market(start, limit);
        self.get_mines_by_id(&tokens)
    }
}

} // verus!
