//! Claiming stones from mines, killing them, and listing an account's stones.

use vstd::prelude::*;
use crate::contract::{filed_stored, owners_disjoint, lemma_contains_concat, lemma_stone_in_append, filed_as_stored, lemma_contains_remove_value, lemma_stone_in_remove, stone_in, AccountData, Contract, account_index, accounts_unique, key_index, keys_unique, lemma_account_index, lemma_index_update, lemma_key_index, lemma_others_trans, lemma_push_key, lemma_remove_key, mine_ids, others_kept, stone_ids};
use crate::collection::Collection;
use crate::inventory::{Inventory, ids, position};
use crate::decimal::{decimal, digit_char, lemma_digit, to_decimal};
use crate::page::{page_of, paginate};
use crate::mine::{DAY_NS, Mine, MineType};
use crate::random::{bucket, random_u8, random_u8_range};
use crate::stone::{CardRarity, Stone, generate_stone_attack, generate_stone_brain, generate_stone_card_rarity, generate_stone_health, generate_stone_kill_tokens, generate_stone_media, generate_stone_random_collection, rarity_for, spec_kill_tokens};

verus! {

/// The id of a stone: `zm-<number>-<rand><num>`, where `number` counts all
/// stones minted, `rand` is the seed's first byte and `num` the stone's place
/// in its claim.
pub open spec fn stone_token_id(number: nat, rand: nat, num: nat) -> Seq<char> {
    "zm-"@ + decimal(number) + "-"@ + decimal(rand) + decimal(num)
}

/// Whether the draws for the `num`-th stone of a claim land on a collection
/// of `cs` whose images can be drawn from.
pub open spec fn draw_ok(seed: Seq<u8>, cs: Seq<Collection>, num: int) -> bool {
    let b = bucket(seed[num] as int, cs.len() as int);
    &&& 1 <= cs.len() <= 256
    &&& b < cs.len()
    &&& 1 <= cs[b].stone_images@.len() <= 256
}

/// Whether `st` is the `num`-th stone of a claim on a mine of type `t` at time
/// `now`, the `number`-th stone minted, drawn from `seed` among collections `cs`.
pub open spec fn is_drawn_stone(
    st: Stone,
    seed: Seq<u8>,
    t: MineType,
    cs: Seq<Collection>,
    number: nat,
    num: int,
    now: u64,
) -> bool {
    let b = bucket(seed[num] as int, cs.len() as int);
    let images = cs[b].stone_images@;
    let drawn = bucket(seed[num + 2] as int, images.len() as int);
    let index = if drawn < images.len() {
        drawn
    } else {
        0
    };
    let health = bucket(seed[num + 5] as int, 5) + 1;
    let attack = bucket(seed[num + 10] as int, 2) + 1;
    let brain = bucket(seed[num + 15] as int, 2);
    &&& st.token_id@ == stone_token_id(number, seed[0] as nat, num as nat)
    &&& st.collection_id == b + 1
    &&& st.collection_index == index
    &&& st.media@ == images[index]@
    &&& st.card_rarity == rarity_for(t, bucket(seed[num] as int, 100) * 10)
    &&& st.health == health
    &&& st.attack == attack
    &&& st.brain == brain
    &&& st.kill_tokens@ == decimal(spec_kill_tokens(st.card_rarity, health, attack, brain) as nat)
    &&& st.mint_date == now
    &&& st.sale_price is None
}

/// Why a stone claim was refused.
#[derive(Debug, Clone, Copy, PartialEq, Eq, Structural)]
pub enum ClaimError {
    /// The account has no such mine, or its cooldown has not passed.
    NothingToClaim,
    /// The deposit does not cover the claim.
    DepositTooSmall,
    /// The random seed has fewer than 24 bytes.
    ShortSeed,
    /// The count of minted stones would pass `u32::MAX`.
    CountOverflow,
    /// A draw missed the collections, or its collection has no images or too many.
    NoCollection,
    /// A drawn stone id is taken already.
    IdTaken,
}

/// The deposit that a claim of `count` stones asks for, in yoctoNEAR.
pub open spec fn spec_claim_deposit(count: u8) -> u128 {
    if count == 1 {
        10_000_000_000_000_000_000_000
    } else if count == 4 {
        30_000_000_000_000_000_000_000
    } else {
        60_000_000_000_000_000_000_000
    }
}

/// The ids of the stones that a claim of `count` stones would mint when
/// `minted` stones have been minted before.
pub open spec fn claim_ids(seed: Seq<u8>, minted: nat, count: nat) -> Seq<Seq<char>> {
    Seq::new(count, |i: int| stone_token_id(minted + 1 + i as nat, seed[0] as nat, (i + 1) as nat))
}

/// Whether a stone has rarity `r`.
pub open spec fn with_rarity(r: CardRarity) -> spec_fn(Stone) -> bool {
    |st: Stone| st.card_rarity == r
}

/// Whether a stone belongs to collection `c`.
pub open spec fn with_collection(c: u32) -> spec_fn(Stone) -> bool {
    |st: Stone| st.collection_id == c
}

proof fn lemma_stone_ids_push(ss: Seq<Stone>, st: Stone)
    ensures
        stone_ids(ss.push(st)) == stone_ids(ss).push(st.token_id@),
{
    assert(stone_ids(ss.push(st)) =~= stone_ids(ss).push(st.token_id@));
}

/// Why a stone was not killed.
#[derive(Debug, Clone, Copy, PartialEq, Eq, Structural)]
pub enum KillError {
    /// No stone has this id.
    UnknownStone,
    /// The account does not own the stone.
    NotOwned,
    /// The count of killed stones would pass `u32::MAX`.
    CountOverflow,
}

/// After any sequence of claims and kills, an account's stones are the same
/// set whether read from its flat list, from its rarity buckets together, or
/// from its collection buckets together.
pub proof fn lemma_account_indexes_agree(c: Contract, a: Seq<char>)
    requires
        c.wf(),
    ensures
        c.flat_of(a).to_set() == c.rarity_of(a, CardRarity::Common).to_set() + c.rarity_of(
            a,
            CardRarity::UnCommon,
        ).to_set() + c.rarity_of(a, CardRarity::Rare).to_set() + c.rarity_of(
            a,
            CardRarity::Legendary,
        ).to_set(),
        c.flat_of(a).to_set() == Set::new(
            |id: Seq<char>| exists|k: u32| #[trigger] c.collection_of(a, k).contains(id),
        ),
{
    match account_index(c.accounts@, a) {
        Some(i) => {
            let inv = c.accounts@[i].stones;
            assert(inv.wf());
            crate::inventory::lemma_indexes_agree(inv);
            assert forall|id: Seq<char>|
                (exists|k: u32| #[trigger] c.collection_of(a, k).contains(id)) <==> inv.collection_union().contains(
                    id,
                ) by {
                if exists|k: u32| #[trigger] c.collection_of(a, k).contains(id) {
                    let k = choose|k: u32| #[trigger] c.collection_of(a, k).contains(id);
                    assert(inv.collection_ids(k).contains(id));
                }
                if inv.collection_union().contains(id) {
                    let k = choose|k: u32| #[trigger] inv.collection_ids(k).contains(id);
                    assert(c.collection_of(a, k).contains(id));
                }
            }
            assert(Set::new(|id: Seq<char>| exists|k: u32| #[trigger] c.collection_of(a, k).contains(id))
                =~= inv.collection_union());
        },
        None => {
            assert(c.flat_of(a).to_set() =~= Set::empty());
            assert(c.rarity_of(a, CardRarity::Common).to_set() =~= Set::empty());
            assert(c.rarity_of(a, CardRarity::UnCommon).to_set() =~= Set::empty());
            assert(c.rarity_of(a, CardRarity::Rare).to_set() =~= Set::empty());
            assert(c.rarity_of(a, CardRarity::Legendary).to_set() =~= Set::empty());
            assert(Set::new(|id: Seq<char>| exists|k: u32| #[trigger] c.collection_of(a, k).contains(id))
                =~= Set::empty());
        },
    }
}

/// The stones of `ss` filtered by `p` include `ss[k]` when it satisfies `p`.
proof fn lemma_filter_stone_ids(ss: Seq<Stone>, p: spec_fn(Stone) -> bool, k: int)
    requires
        0 <= k < ss.len(),
        p(ss[k]),
    ensures
        stone_ids(ss.filter(p)).contains(ss[k].token_id@),
{
    ss.lemma_filter_contains(p, k);
    let f = ss.filter(p);
    let m = choose|m: int| 0 <= m < f.len() && f[m] == ss[k];
    assert(stone_ids(f)[m] == ss[k].token_id@);
}

/// A claim that appends `sts` to the store and to the inventory of the
/// account at `ai` keeps every held stone stored and held by one account.
proof fn lemma_claim_keeps_filing(pre: Contract, mid: Contract, fin: Contract, ai: int, sts: Seq<Stone>)
    requires
        mid.wf(),
        mid.stones == pre.stones,
        0 <= ai < mid.accounts@.len(),
        fin.accounts@ == mid.accounts@.update(ai, fin.accounts@[ai]),
        fin.stones@ == pre.stones@ + sts,
        keys_unique(stone_ids(fin.stones@)),
        forall|k: int| 0 <= k < sts.len() ==> #[trigger] pre.stone_of(stone_ids(sts)[k]) is None,
        fin.accounts@[ai].stones.flat_ids() == mid.accounts@[ai].stones.flat_ids() + stone_ids(sts),
        forall|rr: CardRarity| #[trigger] fin.accounts@[ai].stones.rarity_ids(rr)
            == mid.accounts@[ai].stones.rarity_ids(rr) + stone_ids(sts.filter(with_rarity(rr))),
        forall|c: u32| #[trigger] fin.accounts@[ai].stones.collection_ids(c)
            == mid.accounts@[ai].stones.collection_ids(c) + stone_ids(sts.filter(with_collection(c))),
    ensures
        filed_stored(fin.accounts@, fin.stones@),
        owners_disjoint(fin.accounts@),
{
    let before = mid.accounts@[ai].stones;
    let after = fin.accounts@[ai].stones;
    let news = stone_ids(sts);
    assert forall|x: Seq<char>| #[trigger] news.contains(x) implies !(pre.stone_of(x) is Some) by {
        let k = choose|k: int| 0 <= k < news.len() && news[k] == x;
        assert(pre.stone_of(news[k]) is None);
    }
    assert forall|i: int, x: Seq<char>|
        0 <= i < fin.accounts@.len() && #[trigger] fin.accounts@[i].stones.flat_ids().contains(x)
        implies filed_as_stored(fin.accounts@[i].stones, fin.stones@, x) by {
        if i == ai {
            lemma_contains_concat(before.flat_ids(), news, x);
            if before.flat_ids().contains(x) {
                assert(filed_as_stored(before, pre.stones@, x));
                lemma_stone_in_append(pre.stones@, sts, x);
                let sx = stone_in(pre.stones@, x)->Some_0;
                lemma_contains_concat(
                    before.rarity_ids(sx.card_rarity),
                    stone_ids(sts.filter(with_rarity(sx.card_rarity))),
                    x,
                );
                lemma_contains_concat(
                    before.collection_ids(sx.collection_id),
                    stone_ids(sts.filter(with_collection(sx.collection_id))),
                    x,
                );
            } else {
                let k = choose|k: int| 0 <= k < news.len() && news[k] == x;
                let st = sts[k];
                assert(st.token_id@ == x);
                assert(fin.stones@[pre.stones@.len() + k] == st);
                assert(stone_ids(fin.stones@)[pre.stones@.len() + k] == x);
                lemma_key_index(stone_ids(fin.stones@), x, pre.stones@.len() + k);
                lemma_filter_stone_ids(sts, with_rarity(st.card_rarity), k);
                lemma_filter_stone_ids(sts, with_collection(st.collection_id), k);
                lemma_contains_concat(
                    before.rarity_ids(st.card_rarity),
                    stone_ids(sts.filter(with_rarity(st.card_rarity))),
                    x,
                );
                lemma_contains_concat(
                    before.collection_ids(st.collection_id),
                    stone_ids(sts.filter(with_collection(st.collection_id))),
                    x,
                );
            }
        } else {
            assert(fin.accounts@[i] == mid.accounts@[i]);
            assert(filed_as_stored(mid.accounts@[i].stones, pre.stones@, x));
            lemma_stone_in_append(pre.stones@, sts, x);
        }
    }
    assert forall|i: int, j: int, x: Seq<char>|
        0 <= i < fin.accounts@.len() && 0 <= j < fin.accounts@.len() && i != j
            && #[trigger] fin.accounts@[i].stones.flat_ids().contains(x) implies !(
        #[trigger] fin.accounts@[j].stones.flat_ids().contains(x)) by {
        if i == ai || j == ai {
            let o = if i == ai {
                j
            } else {
                i
            };
            assert(fin.accounts@[o] == mid.accounts@[o]);
            lemma_contains_concat(before.flat_ids(), news, x);
            if fin.accounts@[o].stones.flat_ids().contains(x) && after.flat_ids().contains(x) {
                assert(filed_as_stored(mid.accounts@[o].stones, pre.stones@, x));
                if !before.flat_ids().contains(x) {
                    assert(news.contains(x));
                }
            }
        } else {
            assert(fin.accounts@[i] == mid.accounts@[i]);
            assert(fin.accounts@[j] == mid.accounts@[j]);
        }
    }
}

impl Contract {

    /// The `num`-th stone of a claim on a mine of type `mine_type` at time
    /// `now`, minted as stone number `number`; `None` when a draw misses.
    fn draw_stone(&self, seed: &Vec<u8>, mine_type: MineType, number: u32, num: usize, now: u64) -> (r:
        Option<Stone>)
        requires
            1 <= num <= 8,
            seed@.len() >= 24,
        ensures
            r is Some <==> draw_ok(seed@, self.collections@, num as int),
            r matches Some(st) ==> is_drawn_stone(
                st,
                seed@,
                mine_type,
                self.collections@,
                number as nat,
                num as int,
                now,
            ),
    {
        let n = self.collections.len();
        if n < 1 || n > 256 {
            return None;
        }
        if random_u8_range(seed, num, n) as usize >= n {
            return None;
        }
        let collection_id = generate_stone_random_collection(seed, num, n);
        let collection = &self.collections[collection_id as usize - 1];
        if collection.stone_images.len() < 1 || collection.stone_images.len() > 256 {
            return None;
        }
        let (media, collection_index) = generate_stone_media(seed, collection, num);
        let mut token_id = String::from_str("zm-");
        token_id.append(to_decimal(number as u128).as_str());
        token_id.append("-");
        token_id.append(to_decimal(random_u8(seed, 0) as u128).as_str());
        token_id.append(to_decimal(num as u128).as_str());
        let card_rarity = generate_stone_card_rarity(seed, &mine_type, num);
        let health = generate_stone_health(seed, num);
        let attack = generate_stone_attack(seed, num);
        let brain = generate_stone_brain(seed, num);
        let kill_tokens = generate_stone_kill_tokens(&card_rarity, health, attack, brain);
        assert(token_id@ == stone_token_id(number as nat, seed@[0] as nat, num as nat));
        Some(
            Stone {
                token_id,
                card_rarity,
                sale_price: None,
                kill_tokens: to_decimal(kill_tokens),
                media,
                collection_id,
                collection_index,
                mint_date: now,
                health,
                attack,
                brain,
            },
        )
    }

    /// The deposit that a claim of `count` stones asks for.
    pub fn claim_deposit(count: u8) -> (r: u128)
        ensures
            r == spec_claim_deposit(count),
    {
        if count == 1 {
            10_000_000_000_000_000_000_000
        } else if count == 4 {
            30_000_000_000_000_000_000_000
        } else {
            60_000_000_000_000_000_000_000
        }
    }

    /// Draws the `count` stones of a claim on a mine of type `mine_type`.
    fn draw_stones(&self, seed: &Vec<u8>, mine_type: MineType, count: u8, now: u64) -> (r: Option<
        Vec<Stone>,
    >)
        requires
            1 <= count <= 8,
            seed@.len() >= 24,
            self.stone_minted_count + count <= u32::MAX,
        ensures
            r is Some <==> forall|num: int| 1 <= num <= count ==> #[trigger] draw_ok(seed@, self.collections@, num),
            r matches Some(sts) ==> sts@.len() == count && forall|i: int|
                0 <= i < count ==> is_drawn_stone(
                    #[trigger] sts@[i],
                    seed@,
                    mine_type,
                    self.collections@,
                    (self.stone_minted_count + 1 + i) as nat,
                    i + 1,
                    now,
                ),
    {
        let mut out: Vec<Stone> = Vec::new();
        let mut num: usize = 1;
        while num <= count as usize
            invariant
                1 <= num <= count as usize + 1,
                1 <= count <= 8,
                seed@.len() >= 24,
                self.stone_minted_count + count <= u32::MAX,
                out@.len() == num - 1,
                forall|k: int| 1 <= k < num ==> #[trigger] draw_ok(seed@, self.collections@, k),
                forall|i: int|
                    0 <= i < out@.len() ==> is_drawn_stone(
                        #[trigger] out@[i],
                        seed@,
                        mine_type,
                        self.collections@,
                        (self.stone_minted_count + 1 + i) as nat,
                        i + 1,
                        now,
                    ),
            decreases count as usize + 1 - num,
        {
            let number = self.stone_minted_count + num as u32;
            match self.draw_stone(seed, mine_type, number, num, now) {
                Some(st) => out.push(st),
                None => {
                    return None;
                },
            }
            num += 1;
        }
        Some(out)
    }

    /// Whether the ids of `sts` are all new for account `account`.
    fn fresh_ids(&self, account: &String, sts: &Vec<Stone>) -> (r: bool)
        requires
            self.wf(),
        ensures
            r == self.ids_fresh(account@, stone_ids(sts@)),
    {
        let ghost ns = stone_ids(sts@);
        let ai = self.find_account(account);
        let mut i: usize = 0;
        while i < sts.len()
            invariant
                i <= sts@.len(),
                self.wf(),
                ns == stone_ids(sts@),
                ai matches Some(k) ==> account_index(self.accounts@, account@) == Some(k as int)
                    && k < self.accounts@.len(),
                ai is None ==> account_index(self.accounts@, account@) is None,
                forall|j: int| 0 <= j < i ==> #[trigger] self.stone_of(ns[j]) is None,
                forall|j: int| 0 <= j < i ==> !self.flat_of(account@).contains(#[trigger] ns[j]),
                forall|j: int, k: int| 0 <= j < k < i ==> #[trigger] ns[j] != #[trigger] ns[k],
            decreases sts@.len() - i,
        {
            let id = &sts[i].token_id;
            assert(ns[i as int] == id@);
            if self.find_stone(id).is_some() {
                assert(self.stone_of(ns[i as int]) is Some);
                return false;
            }
            if let Some(k) = ai {
                if let Some(p) = position(&self.accounts[k].stones.flat, id) {
                    assert(self.flat_of(account@)[p as int] == ns[i as int]);
                    return false;
                }
            }
            let mut j: usize = 0;
            while j < i
                invariant
                    j <= i < sts@.len(),
                    ns == stone_ids(sts@),
                    ns[i as int] == id@,
                    forall|m: int| 0 <= m < j ==> ns[m] != ns[i as int],
                decreases i - j,
            {
                assert(ns[j as int] == sts@[j as int].token_id@);
                if sts[j].token_id == *id {
                    assert(ns[j as int] == ns[i as int]);
                    return false;
                }
                j += 1;
            }
            i += 1;
        }
        true
    }

    /// Why `account` may not claim mine `mine_id` now, if it may not.
    pub fn claim_refusal(
        &self,
        account: &String,
        mine_id: &String,
        deposit: u128,
        seed: &Vec<u8>,
        now: u64,
    ) -> (r: Option<ClaimError>)
        requires
            self.wf(),
            now >= DAY_NS,
        ensures
            r == self.spec_claim_refusal(account@, mine_id@, deposit, seed@, now),
    {
        let count = self.mine_claim_free_stone_count(account, mine_id, now);
        if count == 0 {
            return Some(ClaimError::NothingToClaim);
        }
        if deposit < Contract::claim_deposit(count) {
            return Some(ClaimError::DepositTooSmall);
        }
        if seed.len() < 24 {
            return Some(ClaimError::ShortSeed);
        }
        if count as u64 + self.stone_minted_count as u64 > u32::MAX as u64 {
            return Some(ClaimError::CountOverflow);
        }
        let mi = match self.find_mine(mine_id) {
            Some(i) => i,
            None => {
                proof {
                    assert(false);
                }
                return Some(ClaimError::NothingToClaim);
            },
        };
        if self.draw_stones(seed, self.mines[mi].mine_type, count, now).is_none() {
            return Some(ClaimError::NoCollection);
        }
        None
    }

    /// Claims the stones that mine `mine_id` of `account` yields at time
    /// `now`, paying `deposit`, with the block's random `seed`; the claim
    /// must not be refused. The stones are drawn, filed in the account's
    /// inventory and stored, and the mine's claim time is set to `now`.
    /// Fails, changing nothing, only when a drawn id is taken.
    pub fn mint_free_stones(
        &mut self,
        account: &String,
        mine_id: &String,
        deposit: u128,
        seed: &Vec<u8>,
        now: u64,
    ) -> (r: Result<Vec<Stone>, ClaimError>)
        requires
            old(self).wf(),
            now >= DAY_NS,
            old(self).spec_claim_refusal(account@, mine_id@, deposit, seed@, now) is None,
        ensures
            final(self).wf(),
            r is Err <==> !old(self).ids_unused(
                account@,
                claim_ids(
                    seed@,
                    old(self).stone_minted_count as nat,
                    old(self).spec_claimable(account@, mine_id@, now) as nat,
                ),
            ),
            r is Err ==> r == Err::<Vec<Stone>, ClaimError>(ClaimError::IdTaken),
            r is Err ==> *final(self) == *old(self),
            r matches Ok(sts) ==> {
                let count = old(self).spec_claimable(account@, mine_id@, now);
                let m0 = old(self).mine_of(mine_id@)->Some_0;
                &&& sts@.len() == count
                &&& forall|i: int|
                    0 <= i < count ==> is_drawn_stone(
                        #[trigger] sts@[i],
                        seed@,
                        m0.mine_type,
                        old(self).collections@,
                        (old(self).stone_minted_count + 1 + i) as nat,
                        i + 1,
                        now,
                    )
                &&& final(self).stones@ == old(self).stones@ + sts@
                &&& final(self).flat_of(account@) == old(self).flat_of(account@) + stone_ids(sts@)
                &&& forall|rr: CardRarity| #[trigger] final(self).rarity_of(account@, rr)
                    == old(self).rarity_of(account@, rr) + stone_ids(sts@.filter(with_rarity(rr)))
                &&& forall|c: u32| #[trigger] final(self).collection_of(account@, c)
                    == old(self).collection_of(account@, c) + stone_ids(
                    sts@.filter(with_collection(c)),
                )
                &&& final(self).mines_of(account@) == old(self).mines_of(account@)
                &&& final(self).stone_minted_count == old(self).stone_minted_count + count
                &&& final(self).stone_killed_count == old(self).stone_killed_count
                &&& final(self).small_mines_count == old(self).small_mines_count
                &&& final(self).medium_mines_count == old(self).medium_mines_count
                &&& final(self).large_mines_count == old(self).large_mines_count
                &&& final(self).mine_of(mine_id@) == Some(Mine { last_stone_claim: now, ..m0 })
                &&& final(self).mines@ == old(self).mines@.update(
                    key_index(mine_ids(old(self).mines@), mine_id@)->Some_0,
                    Mine { last_stone_claim: now, ..m0 },
                )
                &&& final(self).collections == old(self).collections
                &&& final(self).market == old(self).market
                &&& final(self).ft_storage_accounts == old(self).ft_storage_accounts
                &&& final(self).owner_id == old(self).owner_id
                &&& others_kept(final(self).accounts@, old(self).accounts@, account@, account@)
            },
    {
        let count = self.mine_claim_free_stone_count(account, mine_id, now);
        let mi = match self.find_mine(mine_id) {
            Some(i) => i,
            None => {
                proof {
                    assert(false);
                }
                return Err(ClaimError::NothingToClaim);
            },
        };
        let mine_type = self.mines[mi].mine_type;
        let sts = match self.draw_stones(seed, mine_type, count, now) {
            Some(v) => v,
            None => {
                proof {
                    assert(false);
                }
                return Err(ClaimError::NoCollection);
            },
        };
        assert(stone_ids(sts@) =~= claim_ids(seed@, self.stone_minted_count as nat, count as nat));
        proof {
            lemma_claim_ids_distinct(seed@, self.stone_minted_count as nat, count as nat);
        }
        if !self.fresh_ids(account, &sts) {
            return Err(ClaimError::IdTaken);
        }
        let ghost pre = *self;
        let ai = self.account_entry(account);
        let ghost mid = *self;
        let mut acc = AccountData {
            account_id: String::new(),
            mines: Vec::new(),
            stones: Inventory::new(),
        };
        let ghost blank = acc;
        self.accounts.set_and_swap(ai, &mut acc);
        let mut i: usize = 0;
        while i < sts.len()
            invariant
                i <= sts@.len(),
                acc.stones.wf(),
                acc == (AccountData { stones: acc.stones, ..mid.accounts@[ai as int] }),
                pre.wf(),
                pre.ids_fresh(account@, stone_ids(sts@)),
                acc.stones.flat_ids() == pre.flat_of(account@) + stone_ids(sts@.subrange(0, i as int)),
                forall|rr: CardRarity| #[trigger] acc.stones.rarity_ids(rr) == pre.rarity_of(account@, rr)
                    + stone_ids(sts@.subrange(0, i as int).filter(with_rarity(rr))),
                forall|c: u32| #[trigger] acc.stones.collection_ids(c) == pre.collection_of(account@, c)
                    + stone_ids(sts@.subrange(0, i as int).filter(with_collection(c))),
                self.stones@ == pre.stones@ + sts@.subrange(0, i as int),
                keys_unique(stone_ids(self.stones@)),
                self.accounts@ == mid.accounts@.update(ai as int, blank),
                self.mines == mid.mines,
                self.collections == mid.collections,
                self.market == mid.market,
                self.ft_storage_accounts == mid.ft_storage_accounts,
                self.owner_id == mid.owner_id,
                self.stone_minted_count == mid.stone_minted_count,
                self.stone_killed_count == mid.stone_killed_count,
                self.small_mines_count == mid.small_mines_count,
                self.medium_mines_count == mid.medium_mines_count,
                self.large_mines_count == mid.large_mines_count,
            decreases sts@.len() - i,
        {
            let st = &sts[i];
            let ghost id = st.token_id@;
            let ghost done = sts@.subrange(0, i as int);
            proof {
                assert(stone_ids(sts@)[i as int] == id);
                assert(!pre.flat_of(account@).contains(stone_ids(sts@)[i as int]));
                assert(!stone_ids(done).contains(id)) by {
                    if stone_ids(done).contains(id) {
                        let k = choose|k: int| 0 <= k < stone_ids(done).len() && stone_ids(done)[k] == id;
                        assert(stone_ids(sts@)[k] == stone_ids(sts@)[i as int]);
                    }
                }
                assert(!acc.stones.flat_ids().contains(id));
                assert(sts@.subrange(0, i + 1) == done.push(*st));
                lemma_stone_ids_push(done, *st);
                lemma_stone_ids_push(self.stones@, *st);
                assert forall|rr: CardRarity| #[trigger] done.push(*st).filter(with_rarity(rr)) == if st.card_rarity == rr {
                    done.filter(with_rarity(rr)).push(*st)
                } else {
                    done.filter(with_rarity(rr))
                } by {
                    done.lemma_filter_push(*st, with_rarity(rr));
                }
                assert forall|c: u32| #[trigger] done.push(*st).filter(with_collection(c)) == if st.collection_id == c {
                    done.filter(with_collection(c)).push(*st)
                } else {
                    done.filter(with_collection(c))
                } by {
                    done.lemma_filter_push(*st, with_collection(c));
                }
                assert(pre.stone_of(stone_ids(sts@)[i as int]) is None);
                assert forall|k: int| 0 <= k < self.stones@.len() implies stone_ids(self.stones@)[k] != id by {
                    if k < pre.stones@.len() {
                        assert(stone_ids(pre.stones@)[k] == stone_ids(self.stones@)[k]);
                    } else {
                        assert(stone_ids(self.stones@)[k] == stone_ids(done)[k - pre.stones@.len()]);
                    }
                }
                lemma_push_key(stone_ids(self.stones@), id);
            }
            let added = acc.stones.add(st.token_id.clone(), st.card_rarity, st.collection_id);
            assert(added);
            self.stones.push(st.copy());
            proof {
                lemma_stone_ids_push(done, *st);
                assert forall|rr: CardRarity| #[trigger] acc.stones.rarity_ids(rr) == pre.rarity_of(account@, rr)
                    + stone_ids(sts@.subrange(0, i + 1).filter(with_rarity(rr))) by {
                    if st.card_rarity == rr {
                        lemma_stone_ids_push(done.filter(with_rarity(rr)), *st);
                    }
                }
                assert forall|c: u32| #[trigger] acc.stones.collection_ids(c) == pre.collection_of(account@, c)
                    + stone_ids(sts@.subrange(0, i + 1).filter(with_collection(c))) by {
                    if st.collection_id == c {
                        lemma_stone_ids_push(done.filter(with_collection(c)), *st);
                    }
                }
            }
            i += 1;
        }
        proof {
            assert(sts@.subrange(0, sts@.len() as int) == sts@);
        }
        self.accounts.set_and_swap(ai, &mut acc);
        self.stone_minted_count = self.stone_minted_count + count as u32;
        let mut updated = self.mines[mi].copy();
        updated.last_stone_claim = now;
        self.mines.set(mi, updated);
        proof {
            assert(self.accounts@ =~= mid.accounts@.update(ai as int, self.accounts@[ai as int]));
            assert(mine_ids(self.mines@) =~= mine_ids(pre.mines@));
            assert(accounts_unique(self.accounts@)) by {
                assert forall|x: int, y: int| 0 <= x < y < self.accounts@.len() implies
                    #[trigger] self.accounts@[x].account_id@ != #[trigger] self.accounts@[y].account_id@ by {
                    assert(mid.accounts@[x].account_id@ != mid.accounts@[y].account_id@);
                }
            }
            assert forall|x: int| 0 <= x < self.accounts@.len() implies (#[trigger] self.accounts@[x]).stones.wf() by {
                if x != ai {
                    assert(mid.accounts@[x].stones.wf());
                }
            }
            lemma_account_index(self.accounts@, account@, ai as int);
            lemma_key_index(mine_ids(self.mines@), mine_id@, mi as int);
            lemma_index_update(mid.accounts@, self.accounts@, ai as int);
            lemma_others_trans(self.accounts@, mid.accounts@, pre.accounts@, account@, account@);
            lemma_claim_keeps_filing(pre, mid, *self, ai as int, sts@);
        }
        Ok(sts)
    }

    /// Why `account` may not kill stone `stone_id`, if it may not: the stone
    /// must exist and be filed in the account's inventory under its rarity
    /// and collection, and the count of killed stones must not overflow.
    pub open spec fn spec_kill_refusal(&self, account: Seq<char>, stone_id: Seq<char>) -> Option<
        KillError,
    > {
        match self.stone_of(stone_id) {
            None => Some(KillError::UnknownStone),
            Some(st) => if !(self.rarity_of(account, st.card_rarity).contains(stone_id)
                && self.collection_of(account, st.collection_id).contains(stone_id)) {
                Some(KillError::NotOwned)
            } else if self.stone_killed_count == u32::MAX {
                Some(KillError::CountOverflow)
            } else {
                None
            },
        }
    }

    /// Why `account` may not kill stone `stone_id`, if it may not.
    pub fn kill_refusal(&self, account: &String, stone_id: &String) -> (r: Option<KillError>)
        requires
            self.wf(),
        ensures
            r == self.spec_kill_refusal(account@, stone_id@),
    {
        let si = match self.find_stone(stone_id) {
            Some(i) => i,
            None => {
                return Some(KillError::UnknownStone);
            },
        };
        let ai = match self.find_account(account) {
            Some(i) => i,
            None => {
                return Some(KillError::NotOwned);
            },
        };
        if !self.accounts[ai].stones.holds(
            stone_id,
            self.stones[si].card_rarity,
            self.stones[si].collection_id,
        ) {
            return Some(KillError::NotOwned);
        }
        if self.stone_killed_count == u32::MAX {
            return Some(KillError::CountOverflow);
        }
        None
    }

    /// Kills stone `stone_id` of `account`, which may kill it: the stone
    /// leaves the account's inventory and the store, and is returned so
    /// that its reward can be paid.
    pub fn stone_kill(&mut self, account: &String, stone_id: &String) -> (r: Stone)
        requires
            old(self).wf(),
            old(self).spec_kill_refusal(account@, stone_id@) is None,
        ensures
            final(self).wf(),
            Some(r) == old(self).stone_of(stone_id@),
            final(self).stones@ == old(self).stones@.remove(
                key_index(stone_ids(old(self).stones@), stone_id@)->Some_0,
            ),
            final(self).stone_of(stone_id@) is None,
            final(self).flat_of(account@) == old(self).flat_of(account@).remove_value(stone_id@),
            forall|rr: CardRarity| #[trigger] final(self).rarity_of(account@, rr) == if rr
                == r.card_rarity {
                old(self).rarity_of(account@, rr).remove_value(stone_id@)
            } else {
                old(self).rarity_of(account@, rr)
            },
            forall|c: u32| #[trigger] final(self).collection_of(account@, c) == if c
                == r.collection_id {
                old(self).collection_of(account@, c).remove_value(stone_id@)
            } else {
                old(self).collection_of(account@, c)
            },
            final(self).mines_of(account@) == old(self).mines_of(account@),
            final(self).stone_killed_count == old(self).stone_killed_count + 1,
            final(self).stone_minted_count == old(self).stone_minted_count,
            final(self).small_mines_count == old(self).small_mines_count,
            final(self).medium_mines_count == old(self).medium_mines_count,
            final(self).large_mines_count == old(self).large_mines_count,
            others_kept(final(self).accounts@, old(self).accounts@, account@, account@),
            final(self).mines == old(self).mines,
            final(self).market == old(self).market,
            final(self).collections == old(self).collections,
            final(self).ft_storage_accounts == old(self).ft_storage_accounts,
            final(self).owner_id == old(self).owner_id,
    {
        let si = match self.find_stone(stone_id) {
            Some(i) => i,
            None => {
                proof {
                    assert(false);
                }
                0
            },
        };
        let rarity = self.stones[si].card_rarity;
        let collection_id = self.stones[si].collection_id;
        let ai = match self.find_account(account) {
            Some(i) => i,
            None => {
                proof {
                    assert(false);
                }
                0
            },
        };
        proof {
            let ghost h = self.accounts[ai as int].stones;
            assert(h.rarity_ids(rarity).contains(stone_id@));
            assert(h.collection_ids(collection_id).contains(stone_id@));
        }
        let ghost pre = *self;
        let mut acc = AccountData {
            account_id: String::new(),
            mines: Vec::new(),
            stones: Inventory::new(),
        };
        self.accounts.set_and_swap(ai, &mut acc);
        assert(acc == pre.accounts@[ai as int]);
        let removed = acc.stones.remove(stone_id, rarity, collection_id);
        assert(removed);
        self.accounts.set_and_swap(ai, &mut acc);
        let st = self.stones.remove(si);
        self.stone_killed_count = self.stone_killed_count + 1;
        proof {
            let ghost old_ids = stone_ids(pre.stones@);
            assert(old_ids[si as int] == stone_id@);
            assert(stone_ids(self.stones@) =~= old_ids.remove(si as int));
            lemma_remove_key(old_ids, si as int);
            assert(self.accounts@ =~= pre.accounts@.update(ai as int, self.accounts@[ai as int]));
            assert(accounts_unique(self.accounts@)) by {
                assert forall|x: int, y: int| 0 <= x < y < self.accounts@.len() implies
                    #[trigger] self.accounts@[x].account_id@ != #[trigger] self.accounts@[y].account_id@ by {
                    assert(pre.accounts@[x].account_id@ != pre.accounts@[y].account_id@);
                }
            }
            assert forall|x: int| 0 <= x < self.accounts@.len() implies (#[trigger] self.accounts@[x]).stones.wf() by {
                if x != ai {
                    assert(pre.accounts@[x].stones.wf());
                }
            }
            lemma_account_index(self.accounts@, account@, ai as int);
            lemma_index_update(pre.accounts@, self.accounts@, ai as int);
            let id = stone_id@;
            let before = pre.accounts@[ai as int].stones;
            let after = self.accounts@[ai as int].stones;
            assert(before.flat_ids().contains(id));
            assert forall|x: Seq<char>| #[trigger] after.flat_ids().contains(x) implies before.flat_ids().contains(x)
                && x != id by {
                lemma_contains_remove_value(before.flat_ids(), id, x);
            }
            assert forall|i: int, x: Seq<char>|
                0 <= i < self.accounts@.len() && #[trigger] self.accounts@[i].stones.flat_ids().contains(x)
                implies filed_as_stored(self.accounts@[i].stones, self.stones@, x) by {
                if i == ai {
                    assert(before.flat_ids().contains(x) && x != id);
                    assert(filed_as_stored(before, pre.stones@, x));
                    lemma_stone_in_remove(pre.stones@, si as int, x);
                    let sx = stone_in(pre.stones@, x)->Some_0;
                    lemma_contains_remove_value(before.rarity_ids(sx.card_rarity), id, x);
                    lemma_contains_remove_value(before.collection_ids(sx.collection_id), id, x);
                } else {
                    assert(self.accounts@[i] == pre.accounts@[i]);
                    assert(pre.accounts@[i].stones.flat_ids().contains(x));
                    assert(x != id);
                    assert(filed_as_stored(pre.accounts@[i].stones, pre.stones@, x));
                    lemma_stone_in_remove(pre.stones@, si as int, x);
                }
            }
            assert forall|i: int, j: int, x: Seq<char>|
                0 <= i < self.accounts@.len() && 0 <= j < self.accounts@.len() && i != j
                    && #[trigger] self.accounts@[i].stones.flat_ids().contains(x) implies !(
                #[trigger] self.accounts@[j].stones.flat_ids().contains(x)) by {
                if i == ai {
                    assert(before.flat_ids().contains(x));
                    assert(self.accounts@[j] == pre.accounts@[j]);
                } else if j == ai {
                    assert(self.accounts@[i] == pre.accounts@[i]);
                    if after.flat_ids().contains(x) {
                        assert(before.flat_ids().contains(x));
                    }
                } else {
                    assert(self.accounts@[i] == pre.accounts@[i]);
                    assert(self.accounts@[j] == pre.accounts@[j]);
                }
            }
        }
        st
    }

    /// The stones with the given ids, in that order; ids that no stone has
    /// are passed over.
    pub fn get_stones_by_id(&self, list: &Vec<String>) -> (r: Vec<Stone>)
        requires
            self.wf(),
        ensures
            stone_ids(r@) == ids(list@).filter(self.stored()),
            forall|i: int| 0 <= i < r@.len() ==> self.stone_of(#[trigger] r@[i].token_id@) == Some(r@[i]),
    {
        let mut out: Vec<Stone> = Vec::new();
        let mut i: usize = 0;
        while i < list.len()
            invariant
                i <= list@.len(),
                self.wf(),
                stone_ids(out@) == ids(list@).subrange(0, i as int).filter(self.stored()),
                forall|k: int| 0 <= k < out@.len() ==> self.stone_of(#[trigger] out@[k].token_id@) == Some(out@[k]),
            decreases list@.len() - i,
        {
            let ghost before = ids(list@).subrange(0, i as int);
            assert(ids(list@).subrange(0, i + 1) == before.push(list@[i as int]@));
            proof {
                before.lemma_filter_push(list@[i as int]@, self.stored());
            }
            match self.find_stone(&list[i]) {
                Some(si) => {
                    let st = self.stones[si].copy();
                    proof {
                        lemma_stone_ids_push(out@, st);
                    }
                    out.push(st);
                },
                None => {},
            }
            i += 1;
        }
        assert(ids(list@).subrange(0, list@.len() as int) == ids(list@));
        out
    }

    /// Page `page_num` of size `page_limit` of `account`'s stones, newest
    /// first, optionally only those of one rarity and/or one collection,
    /// with the number of stones that match; both numbers are at least 1.
    pub fn user_stones(
        &self,
        account: &String,
        page_num: u64,
        page_limit: u64,
        filter_rarity: Option<CardRarity>,
        filter_collection: Option<u32>,
    ) -> (r: (u64, Vec<Stone>))
        requires
            self.wf(),
            page_num >= 1,
            page_limit >= 1,
        ensures
            ({
                let listed = self.filtered_of(account@, filter_rarity, filter_collection);
                let (count, sts) = r;
                &&& count == listed.len()
                &&& stone_ids(sts@) == page_of(listed, page_num as int, page_limit as int).filter(
                    self.stored(),
                )
                &&& forall|i: int|
                    0 <= i < sts@.len() ==> self.stone_of(#[trigger] sts@[i].token_id@) == Some(sts@[i])
            }),
    {
        let list = match self.find_account(account) {
            Some(ai) => self.accounts[ai].stones.stone_ids(filter_rarity, filter_collection),
            None => {
                let v: Vec<String> = Vec::new();
                assert(ids(v@) =~= Seq::<Seq<char>>::empty());
                v
            },
        };
        let (count, page) = paginate(&list, page_num, page_limit);
        (count, self.get_stones_by_id(&page))
    }

    /// For each collection, its id and how many stones of it `account` holds.
    pub fn user_collection_counts(&self, account: &String) -> (r: Vec<(u32, u32)>)
        requires
            self.wf(),
            self.collections@.len() < u32::MAX,
        ensures
            r@.len() == self.collections@.len(),
            forall|i: int| 0 <= i < r@.len() ==> (#[trigger] r@[i]).0 == i + 1 && r@[i].1 as int
                == self.collection_of(account@, (i + 1) as u32).len() as u32,
    {
        let ai = self.find_account(account);
        let mut out: Vec<(u32, u32)> = Vec::new();
        let n = self.collections.len();
        let mut i: usize = 0;
        while i < n
            invariant
                i <= n == self.collections@.len() < u32::MAX,
                self.wf(),
                ai matches Some(k) ==> account_index(self.accounts@, account@) == Some(k as int)
                    && k < self.accounts@.len(),
                ai is None ==> account_index(self.accounts@, account@) is None,
                out@.len() == i,
                forall|k: int| 0 <= k < i ==> (#[trigger] out@[k]).0 == k + 1 && out@[k].1 as int
                    == self.collection_of(account@, (k + 1) as u32).len() as u32,
            decreases n - i,
        {
            let id = (i + 1) as u32;
            let held: usize = match ai {
                Some(k) => match self.accounts[k].stones.by_collection.get(&id) {
                    Some(v) => v.len(),
                    None => 0,
                },
                None => 0,
            };
            out.push((id, held as u32));
            i += 1;
        }
        out
    }

    /// How many stones have been minted.
    pub fn minted_stones_count(&self) -> (r: u32)
        ensures
            r == self.stone_minted_count,
    {
        self.stone_minted_count
    }

    /// How many stones have been killed.
    pub fn killed_stones_count(&self) -> (r: u32)
        ensures
            r == self.stone_killed_count,
    {
        self.stone_killed_count
    }
}

/// Every stone that an account holds can be killed by it, while the count
/// of killed stones has room: holding it is all that the kill asks.
pub proof fn lemma_held_stone_can_be_killed(c: Contract, a: Seq<char>, id: Seq<char>)
    requires
        c.wf(),
        c.flat_of(a).contains(id),
        c.stone_killed_count < u32::MAX,
    ensures
        c.spec_kill_refusal(a, id) is None,
{
    let i = account_index(c.accounts@, a)->Some_0;
    assert(c.accounts@[i].stones.flat_ids().contains(id));
    assert(filed_as_stored(c.accounts@[i].stones, c.stones@, id));
}

/// The ids that one claim draws are distinct: each ends in the digit of the
/// stone's place in the claim.
pub proof fn lemma_claim_ids_distinct(seed: Seq<u8>, minted: nat, count: nat)
    requires
        count <= 9,
    ensures
        claim_ids(seed, minted, count).no_duplicates(),
{
    let ns = claim_ids(seed, minted, count);
    assert forall|i: int, j: int| 0 <= i < ns.len() && 0 <= j < ns.len() && i != j implies ns[i]
        != ns[j] by {
        lemma_id_ends_in_place(seed, (minted + 1 + i) as nat, (i + 1) as nat);
        lemma_id_ends_in_place(seed, (minted + 1 + j) as nat, (j + 1) as nat);
        lemma_digit(i + 1);
        lemma_digit(j + 1);
    }
}

proof fn lemma_id_ends_in_place(seed: Seq<u8>, number: nat, num: nat)
    requires
        1 <= num <= 9,
    ensures
        stone_token_id(number, seed[0] as nat, num).last() == digit_char(num as int),
{
    let head = "zm-"@ + decimal(number) + "-"@ + decimal(seed[0] as nat);
    assert(decimal(num) == seq![digit_char(num as int)]);
    assert(stone_token_id(number, seed[0] as nat, num) == head + decimal(num));
}

} // verus!
