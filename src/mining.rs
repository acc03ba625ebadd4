//! Minting, transferring and listing mines, and their claim windows.

use vstd::prelude::*;
use crate::contract::{AccountData, Contract, account_index, accounts_unique, lemma_account_index, lemma_index_update, lemma_others_trans, lemma_others_widen, lemma_push_key, mine_ids, others_kept};
use crate::inventory::{Inventory, ids, position};
use crate::decimal::{decimal, to_decimal};
use crate::stone::CardRarity;
use crate::mine::{DAY_NS, Mine, MineType, SMALL_MINE_PRICE, TotalMineResponse, mine_type_name, spec_claim_wait, spec_mine_limit, spec_mine_media, spec_mine_price, spec_stones_per_day, spec_type_for_deposit};

verus! {

/// Why a mine was not minted.
#[derive(Debug, Clone, Copy, PartialEq, Eq, Structural)]
pub enum MineError {
    /// The deposit is below the price of the cheapest mine.
    DepositTooSmall,
    /// The deposit is not the price of any mine type.
    WrongDeposit,
    /// The account owns a small mine already; it gets only one.
    SmallMineOwned,
    /// All mines of this type have been minted.
    LimitReached,
    /// A mine with the id drawn exists already.
    IdTaken,
}

/// The first letter of a mine type's name, in lower case.
pub open spec fn mine_initial(t: MineType) -> Seq<char> {
    match t {
        MineType::Small => "s"@,
        MineType::Medium => "m"@,
        MineType::Large => "l"@,
    }
}

/// The id of the `number`-th mine of type `t`, minted with random byte `rand`:
/// `<initial>-<number>-<rand>`.
pub open spec fn mine_token_id(t: MineType, number: nat, rand: nat) -> Seq<char> {
    mine_initial(t) + "-"@ + decimal(number) + "-"@ + decimal(rand)
}

/// Why a mine was not transferred.
#[derive(Debug, Clone, Copy, PartialEq, Eq, Structural)]
pub enum TransferError {
    /// The sender does not own the mine.
    NotOwned,
    /// The sender and the recipient are the same account.
    SelfTransfer,
}

/// The totals of one mine type, as a listing reports them.
pub open spec fn is_total_of(r: TotalMineResponse, t: MineType, count: u32) -> bool {
    &&& r.total_count == count
    &&& r.price == spec_mine_price(t)
    &&& r.stone_per_day == spec_stones_per_day(t)
    &&& r.media@ == spec_mine_media(t)
    &&& r.mine_type@ == mine_type_name(t)
}

proof fn lemma_mine_ids_push(ms: Seq<Mine>, m: Mine)
    ensures
        mine_ids(ms.push(m)) == mine_ids(ms).push(m.token_id@),
{
    assert(mine_ids(ms.push(m)) =~= mine_ids(ms).push(m.token_id@));
}

/// The ids of a list of (id, value) entries.
pub open spec fn entry_ids(v: Seq<(String, u64)>) -> Seq<Seq<char>> {
    v.map_values(|e: (String, u64)| e.0@)
}

/// Whether `m` is a small mine.
pub open spec fn is_small_mine(m: Option<Mine>) -> bool {
    m matches Some(x) && x.mine_type == MineType::Small
}

impl Contract {

    /// How many mines of type `mine_type` have been minted.
    pub fn mines_count(&self, mine_type: MineType) -> (r: u32)
        ensures
            r == self.spec_mines_count(mine_type),
    {
        match mine_type {
            MineType::Small => self.small_mines_count,
            MineType::Medium => self.medium_mines_count,
            MineType::Large => self.large_mines_count,
        }
    }

    /// Whether `account` owns a small mine, which bars it from minting another.
    pub fn check_mint_free_mine(&self, account: &String) -> (r: bool)
        requires
            self.wf(),
        ensures
            r == self.owns_small_mine(account@),
    {
        match self.find_account(account) {
            None => {
                assert(self.mines_of(account@).len() == 0);
                false
            },
            Some(ai) => {
                let owned = &self.accounts[ai].mines;
                let mut k: usize = 0;
                while k < owned.len()
                    invariant
                        k <= owned@.len(),
                        self.wf(),
                        ids(owned@) == self.mines_of(account@),
                        forall|j: int| 0 <= j < k ==> !is_small_mine(#[trigger] self.mine_of(self.mines_of(account@)[j])),
                    decreases owned@.len() - k,
                {
                    if let Some(mi) = self.find_mine(&owned[k]) {
                        if self.mines[mi].mine_type == MineType::Small {
                            assert(self.mine_of(self.mines_of(account@)[k as int]) == Some(self.mines@[mi as int]));
                            return true;
                        }
                    }
                    k += 1;
                }
                false
            },
        }
    }

    /// Why `account` may not mint a mine with `deposit`, if it may not: the
    /// deposit must be the price of a type, a small mine is refused to an
    /// account that has one, and every type has a limit.
    pub open spec fn spec_mine_refusal(&self, account: Seq<char>, deposit: u128) -> Option<MineError> {
        if deposit < SMALL_MINE_PRICE {
            Some(MineError::DepositTooSmall)
        } else {
            match spec_type_for_deposit(deposit) {
                None => Some(MineError::WrongDeposit),
                Some(t) => if t == MineType::Small && self.owns_small_mine(account) {
                    Some(MineError::SmallMineOwned)
                } else if self.spec_mines_count(t) + 1 > spec_mine_limit(t) {
                    Some(MineError::LimitReached)
                } else {
                    None
                },
            }
        }
    }

    /// Why `account` may not mint a mine with `deposit`, if it may not.
    pub fn mine_refusal(&self, account: &String, deposit: u128) -> (r: Option<MineError>)
        requires
            self.wf(),
        ensures
            r == self.spec_mine_refusal(account@, deposit),
    {
        if deposit < SMALL_MINE_PRICE {
            return Some(MineError::DepositTooSmall);
        }
        let mine_type = match Mine::type_for_deposit(deposit) {
            Some(t) => t,
            None => {
                return Some(MineError::WrongDeposit);
            },
        };
        if mine_type == MineType::Small && self.check_mint_free_mine(account) {
            return Some(MineError::SmallMineOwned);
        }
        if self.mines_count(mine_type) >= Mine::mine_limits(&mine_type) {
            return Some(MineError::LimitReached);
        }
        None
    }

    /// Mints a mine for `account`, which may mint one, of the type whose
    /// price is `deposit`; `rand` is the first byte of the block's random
    /// seed. Fails, changing nothing, only when a mine has the drawn id.
    pub fn mint_mine(&mut self, account: &String, deposit: u128, rand: u8) -> (r: Result<
        Mine,
        MineError,
    >)
        requires
            old(self).wf(),
            old(self).spec_mine_refusal(account@, deposit) is None,
        ensures
            final(self).wf(),
            ({
                let t = spec_type_for_deposit(deposit)->Some_0;
                let number = old(self).spec_mines_count(t) + 1;
                let id = mine_token_id(t, number as nat, rand as nat);
                &&& r is Err <==> old(self).mine_of(id) is Some
                &&& r is Err ==> r == Err::<Mine, MineError>(MineError::IdTaken)
                &&& r matches Ok(m) ==> {
                    &&& m.token_id@ == id && m.mine_type == t && m.last_stone_claim == 0
                    &&& m.sale_price is None && m.media@ == spec_mine_media(t)
                    &&& final(self).mines@ == old(self).mines@.push(m)
                    &&& final(self).spec_mines_count(t) == number
                    &&& forall|u: MineType| u != t ==> #[trigger] final(self).spec_mines_count(u)
                        == old(self).spec_mines_count(u)
                    &&& final(self).mines_of(account@) == old(self).mines_of(account@).push(id)
                }
            }),
            r is Err ==> *final(self) == *old(self),
            r is Ok ==> {
                &&& others_kept(final(self).accounts@, old(self).accounts@, account@, account@)
                &&& final(self).flat_of(account@) == old(self).flat_of(account@)
                &&& forall|rr: CardRarity| #[trigger] final(self).rarity_of(account@, rr)
                    == old(self).rarity_of(account@, rr)
                &&& forall|c: u32| #[trigger] final(self).collection_of(account@, c)
                    == old(self).collection_of(account@, c)
                &&& final(self).stones == old(self).stones
                &&& final(self).market == old(self).market
                &&& final(self).collections == old(self).collections
                &&& final(self).ft_storage_accounts == old(self).ft_storage_accounts
                &&& final(self).owner_id == old(self).owner_id
                &&& final(self).stone_minted_count == old(self).stone_minted_count
                &&& final(self).stone_killed_count == old(self).stone_killed_count
            },
    {
        let mine_type = match Mine::type_for_deposit(deposit) {
            Some(t) => t,
            None => MineType::Small,
        };
        let count = self.mines_count(mine_type);
        let number = count + 1;
        let mut token_id = match mine_type {
            MineType::Small => String::from_str("s"),
            MineType::Medium => String::from_str("m"),
            MineType::Large => String::from_str("l"),
        };
        token_id.append("-");
        token_id.append(to_decimal(number as u128).as_str());
        token_id.append("-");
        token_id.append(to_decimal(rand as u128).as_str());
        assert(token_id@ == mine_token_id(mine_type, number as nat, rand as nat));
        if self.find_mine(&token_id).is_some() {
            return Err(MineError::IdTaken);
        }
        let ghost pre = *self;
        let ai = self.account_entry(account);
        let mine = Mine {
            token_id: token_id.clone(),
            mine_type,
            last_stone_claim: 0,
            sale_price: None,
            media: Mine::mine_media_hash(&mine_type),
        };
        self.mines.push(mine.copy());
        proof {
            lemma_push_key(mine_ids(pre.mines@), token_id@);
            assert(mine_ids(self.mines@) =~= mine_ids(pre.mines@).push(token_id@));
        }
        match mine_type {
            MineType::Small => self.small_mines_count = number,
            MineType::Medium => self.medium_mines_count = number,
            MineType::Large => self.large_mines_count = number,
        }
        let ghost before = self.accounts@;
        assert(others_kept(before, pre.accounts@, account@, account@));
        let mut acc = self.accounts.remove(ai);
        assert(ids(acc.mines@.push(token_id)) =~= ids(acc.mines@).push(token_id@));
        acc.mines.push(token_id);
        self.accounts.insert(ai, acc);
        proof {
            assert(self.accounts@ =~= before.update(ai as int, acc));
            assert(accounts_unique(self.accounts@)) by {
                assert forall|i: int, j: int| 0 <= i < j < self.accounts@.len() implies
                    #[trigger] self.accounts@[i].account_id@ != #[trigger] self.accounts@[j].account_id@ by {
                    assert(before[i].account_id@ != before[j].account_id@);
                }
            }
            assert forall|i: int| 0 <= i < self.accounts@.len() implies (#[trigger] self.accounts@[i]).stones.wf() by {
                assert(before[i].stones.wf());
            }
            lemma_account_index(self.accounts@, account@, ai as int);
            lemma_index_update(before, self.accounts@, ai as int);
            lemma_others_trans(self.accounts@, before, pre.accounts@, account@, account@);
            assert(self.accounts@[ai as int].stones == before[ai as int].stones);
            assert forall|rr: CardRarity| #[trigger] self.rarity_of(account@, rr)
                == pre.rarity_of(account@, rr) by {
                assert(before[ai as int].stones.rarity_ids(rr) == pre.rarity_of(account@, rr));
            }
            assert forall|c: u32| #[trigger] self.collection_of(account@, c)
                == pre.collection_of(account@, c) by {
                assert(before[ai as int].stones.collection_ids(c) == pre.collection_of(account@, c));
            }
        }
        Ok(mine)
    }

    /// How many stones `account` may claim from mine `mine_id` at time `now`.
    pub fn mine_claim_free_stone_count(&self, account: &String, mine_id: &String, now: u64) -> (r: u8)
        requires
            self.wf(),
            now >= DAY_NS,
        ensures
            r == self.spec_claimable(account@, mine_id@, now),
    {
        let ai = match self.find_account(account) {
            Some(i) => i,
            None => {
                return 0;
            },
        };
        let mi = match self.find_mine(mine_id) {
            Some(i) => i,
            None => {
                return 0;
            },
        };
        match position(&self.accounts[ai].mines, mine_id) {
            Some(k) => {
                assert(self.mines_of(account@)[k as int] == mine_id@);
                self.mines[mi].claimable_stones(now)
            },
            None => 0,
        }
    }

    /// The mines with the given ids, in that order; ids that no mine has
    /// are passed over.
    pub fn get_mines_by_id(&self, list: &Vec<String>) -> (r: Vec<Mine>)
        requires
            self.wf(),
        ensures
            mine_ids(r@) == ids(list@).filter(self.mine_stored()),
            forall|i: int| 0 <= i < r@.len() ==> self.mine_of(#[trigger] r@[i].token_id@) == Some(r@[i]),
    {
        let mut out: Vec<Mine> = Vec::new();
        let mut i: usize = 0;
        while i < list.len()
            invariant
                i <= list@.len(),
                self.wf(),
                mine_ids(out@) == ids(list@).subrange(0, i as int).filter(self.mine_stored()),
                forall|k: int| 0 <= k < out@.len() ==> self.mine_of(#[trigger] out@[k].token_id@) == Some(out@[k]),
            decreases list@.len() - i,
        {
            let ghost before = ids(list@).subrange(0, i as int);
            assert(ids(list@).subrange(0, i + 1) == before.push(list@[i as int]@));
            proof {
                before.lemma_filter_push(list@[i as int]@, self.mine_stored());
            }
            match self.find_mine(&list[i]) {
                Some(mi) => {
                    let m = self.mines[mi].copy();
                    proof {
                        lemma_mine_ids_push(out@, m);
                    }
                    out.push(m);
                },
                None => {},
            }
            i += 1;
        }
        assert(ids(list@).subrange(0, list@.len() as int) == ids(list@));
        out
    }

    /// The mines of `account`, the one it got last first.
    pub fn user_mines(&self, account: &String) -> (r: Vec<Mine>)
        requires
            self.wf(),
        ensures
            mine_ids(r@) == self.mines_of(account@).reverse().filter(self.mine_stored()),
            forall|i: int| 0 <= i < r@.len() ==> self.mine_of(#[trigger] r@[i].token_id@) == Some(r@[i]),
    {
        let mut reversed: Vec<String> = Vec::new();
        if let Some(ai) = self.find_account(account) {
            let owned = &self.accounts[ai].mines;
            let n = owned.len();
            let mut i: usize = 0;
            while i < n
                invariant
                    i <= n == owned@.len(),
                    ids(owned@) == self.mines_of(account@),
                    ids(reversed@) == ids(owned@).reverse().subrange(0, i as int),
                decreases n - i,
            {
                proof {
                    assert(ids(reversed@.push(owned@[n - 1 - i])) =~= ids(reversed@).push(owned@[n - 1 - i]@));
                }
                reversed.push(owned[n - 1 - i].clone());
                i += 1;
                assert(ids(reversed@) =~= ids(owned@).reverse().subrange(0, i as int));
            }
            assert(ids(owned@).reverse().subrange(0, n as int) =~= ids(owned@).reverse());
        } else {
            assert(ids(reversed@) =~= self.mines_of(account@).reverse());
        }
        self.get_mines_by_id(&reversed)
    }

    /// For each mine of `account`, which has data, that exists: its id and
    /// the nanoseconds left at time `timestamp` before it can be claimed
    /// again.
    pub fn stone_claim_time(&self, account: &String, timestamp: u64) -> (r: Vec<(String, u64)>)
        requires
            self.wf(),
            timestamp >= DAY_NS,
            account_index(self.accounts@, account@) is Some,
        ensures
            entry_ids(r@) == self.mines_of(account@).filter(self.mine_stored()),
            forall|i: int|
                0 <= i < r@.len() ==> (#[trigger] r@[i]).1 as int == spec_claim_wait(
                    self.mine_of(r@[i].0@)->Some_0.last_stone_claim,
                    timestamp,
                ),
    {
        let ai = match self.find_account(account) {
            Some(i) => i,
            None => {
                proof {
                    assert(false);
                }
                0
            },
        };
        let mines = self.get_mines_by_id(&self.accounts[ai].mines);
        let mut out: Vec<(String, u64)> = Vec::new();
        let mut i: usize = 0;
        while i < mines.len()
            invariant
                i <= mines@.len(),
                timestamp >= DAY_NS,
                forall|k: int| 0 <= k < mines@.len() ==> self.mine_of(#[trigger] mines@[k].token_id@) == Some(mines@[k]),
                entry_ids(out@) == mine_ids(mines@).subrange(0, i as int),
                forall|k: int|
                    0 <= k < out@.len() ==> (#[trigger] out@[k]).1 as int == spec_claim_wait(
                        self.mine_of(out@[k].0@)->Some_0.last_stone_claim,
                        timestamp,
                    ),
            decreases mines@.len() - i,
        {
            let wait = mines[i].claim_wait(timestamp);
            let entry = (mines[i].token_id.clone(), wait);
            assert(self.mine_of(entry.0@) == Some(mines@[i as int]));
            let ghost before = out@;
            out.push(entry);
            i += 1;
            assert(entry_ids(out@) =~= entry_ids(before).push(mines@[i - 1].token_id@));
            assert(entry_ids(out@) =~= mine_ids(mines@).subrange(0, i as int));
        }
        assert(mine_ids(mines@).subrange(0, mines@.len() as int) == mine_ids(mines@));
        out
    }

    /// Totals of each mine type, small, medium and large in that order.
    pub fn total_mines_count(&self) -> (r: Vec<TotalMineResponse>)
        ensures
            r@.len() == 3,
            is_total_of(r@[0], MineType::Small, self.small_mines_count),
            is_total_of(r@[1], MineType::Medium, self.medium_mines_count),
            is_total_of(r@[2], MineType::Large, self.large_mines_count),
    {
        let mut out: Vec<TotalMineResponse> = Vec::new();
        out.push(self.total_of(MineType::Small));
        out.push(self.total_of(MineType::Medium));
        out.push(self.total_of(MineType::Large));
        out
    }

    fn total_of(&self, t: MineType) -> (r: TotalMineResponse)
        ensures
            is_total_of(r, t, self.spec_mines_count(t)),
    {
        TotalMineResponse {
            total_count: self.mines_count(t),
            price: Mine::mine_prices(&t),
            stone_per_day: Mine::mine_stone_per_day(&t),
            media: Mine::mine_media_hash(&t),
            mine_type: t.to_string(),
        }
    }

    /// Why `sender` may not send mine `token_id` to `recipient`, if it may
    /// not: it must own the mine, and may not send it to itself.
    pub open spec fn spec_transfer_refusal(
        &self,
        sender: Seq<char>,
        token_id: Seq<char>,
        recipient: Seq<char>,
    ) -> Option<TransferError> {
        if !self.mines_of(sender).contains(token_id) {
            Some(TransferError::NotOwned)
        } else if sender == recipient {
            Some(TransferError::SelfTransfer)
        } else {
            None
        }
    }

    /// Why `sender` may not send mine `token_id` to `recipient`, if it may not.
    pub fn transfer_refusal(&self, sender: &String, token_id: &String, recipient: &String) -> (r:
        Option<TransferError>)
        requires
            self.wf(),
        ensures
            r == self.spec_transfer_refusal(sender@, token_id@, recipient@),
    {
        let si = match self.find_account(sender) {
            Some(i) => i,
            None => {
                return Some(TransferError::NotOwned);
            },
        };
        match position(&self.accounts[si].mines, token_id) {
            Some(p) => {
                assert(self.mines_of(sender@)[p as int] == token_id@);
            },
            None => {
                return Some(TransferError::NotOwned);
            },
        }
        if *sender == *recipient {
            return Some(TransferError::SelfTransfer);
        }
        None
    }

    /// Moves mine `token_id` from `sender`, which may send it, to
    /// `recipient`, where it is appended to the recipient's mines.
    pub fn transfer_mine(&mut self, sender: &String, token_id: &String, recipient: &String)
        requires
            old(self).wf(),
            old(self).spec_transfer_refusal(sender@, token_id@, recipient@) is None,
        ensures
            final(self).wf(),
            final(self).mines_of(sender@) == old(self).mines_of(sender@).remove_value(token_id@),
            final(self).mines_of(recipient@) == old(self).mines_of(recipient@).push(token_id@),
            final(self).inventory_kept(old(self), sender@),
            final(self).inventory_kept(old(self), recipient@),
            others_kept(final(self).accounts@, old(self).accounts@, sender@, recipient@),
            final(self).mines == old(self).mines,
            final(self).stones == old(self).stones,
            final(self).market == old(self).market,
            final(self).collections == old(self).collections,
            final(self).ft_storage_accounts == old(self).ft_storage_accounts,
            final(self).counters() == old(self).counters(),
            final(self).owner_id == old(self).owner_id,
    {
        let si = match self.find_account(sender) {
            Some(i) => i,
            None => {
                proof {
                    assert(false);
                }
                return;
            },
        };
        let p = match position(&self.accounts[si].mines, token_id) {
            Some(p) => p,
            None => {
                proof {
                    assert(false);
                }
                return;
            },
        };
        let ghost pre = *self;
        let ghost sender_ids = pre.mines_of(sender@);
        proof {
            sender_ids.index_of_first_ensures(token_id@);
            assert(sender_ids[p as int] == token_id@);
        }
        let ri = self.account_entry(recipient);
        let ghost mid = *self;
        assert(mid.accounts@[si as int] == pre.accounts@[si as int]);
        let mut acc = AccountData {
            account_id: String::new(),
            mines: Vec::new(),
            stones: Inventory::new(),
        };
        self.accounts.set_and_swap(ri, &mut acc);
        proof {
            assert(ids(acc.mines@.push(*token_id)) =~= ids(acc.mines@).push(token_id@));
        }
        acc.mines.push(token_id.clone());
        self.accounts.set_and_swap(ri, &mut acc);
        let ghost mid2 = *self;
        self.accounts.set_and_swap(si, &mut acc);
        proof {
            assert(ids(acc.mines@.remove(p as int)) =~= ids(acc.mines@).remove(p as int));
        }
        acc.mines.remove(p);
        self.accounts.set_and_swap(si, &mut acc);
        proof {
            assert(self.accounts@ =~= mid.accounts@.update(ri as int, mid2.accounts@[ri as int]).update(
                si as int,
                self.accounts@[si as int],
            ));
            assert(accounts_unique(self.accounts@)) by {
                assert forall|x: int, y: int| 0 <= x < y < self.accounts@.len() implies
                    #[trigger] self.accounts@[x].account_id@ != #[trigger] self.accounts@[y].account_id@ by {
                    assert(mid.accounts@[x].account_id@ != mid.accounts@[y].account_id@);
                }
            }
            assert forall|x: int| 0 <= x < self.accounts@.len() implies (#[trigger] self.accounts@[x]).stones.wf() by {
                assert(mid.accounts@[x].stones.wf());
            }
            lemma_account_index(self.accounts@, sender@, si as int);
            lemma_account_index(self.accounts@, recipient@, ri as int);
            lemma_index_update(mid.accounts@, mid2.accounts@, ri as int);
            lemma_index_update(mid2.accounts@, self.accounts@, si as int);
            lemma_others_widen(mid.accounts@, pre.accounts@, recipient@, sender@);
            lemma_others_widen(mid2.accounts@, mid.accounts@, recipient@, sender@);
            lemma_others_widen(self.accounts@, mid2.accounts@, sender@, recipient@);
            lemma_others_trans(mid2.accounts@, mid.accounts@, pre.accounts@, sender@, recipient@);
            lemma_others_trans(self.accounts@, mid2.accounts@, pre.accounts@, sender@, recipient@);
            assert(self.accounts@[si as int].stones == pre.accounts@[si as int].stones);
            assert(self.accounts@[ri as int].stones == mid.accounts@[ri as int].stones);
            assert forall|rr: CardRarity| #[trigger] self.rarity_of(recipient@, rr)
                == pre.rarity_of(recipient@, rr) by {
                assert(mid.accounts@[ri as int].stones.rarity_ids(rr) == pre.rarity_of(recipient@, rr));
            }
            assert forall|c: u32| #[trigger] self.collection_of(recipient@, c)
                == pre.collection_of(recipient@, c) by {
                assert(mid.accounts@[ri as int].stones.collection_ids(c) == pre.collection_of(recipient@, c));
            }
        }
    }
}

} // verus!
