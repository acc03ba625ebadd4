//! The game's state: accounts, mines, stones, collections and the market.

use vstd::prelude::*;
use crate::collection::{Collection, CollectionError, add_new_collection, has_title, title_taken};
use crate::inventory::{Inventory, ids, position};
use crate::market::Market;
use crate::mine::{DAY_NS, Mine, MineType, spec_stones_per_day};
use crate::stone::{CardRarity, Stone};
use crate::mining::is_small_mine;
use crate::claims::{ClaimError, draw_ok, spec_claim_deposit};

verus! {

/// What the contract keeps for one account: the ids of its mines, in the
/// order it got them, and the inventory of its stones.
pub struct AccountData {
    pub account_id: String,
    pub mines: Vec<String>,
    pub stones: Inventory,
}

/// The game's state: mines, stones, collections and accounts.
pub struct Contract {
    pub owner_id: String,
    pub mines: Vec<Mine>,
    pub small_mines_count: u32,
    pub medium_mines_count: u32,
    pub large_mines_count: u32,
    pub stones: Vec<Stone>,
    pub stone_minted_count: u32,
    pub stone_killed_count: u32,
    pub accounts: Vec<AccountData>,
    pub collections: Vec<Collection>,
    pub market: Market,
    pub ft_storage_accounts: Vec<String>,
}

/// Whether no key occurs twice in `keys`.
pub open spec fn keys_unique(keys: Seq<Seq<char>>) -> bool {
    forall|i: int, j: int| 0 <= i < j < keys.len() ==> #[trigger] keys[i] != #[trigger] keys[j]
}

/// The position of key `k` in `keys`, if it occurs.
pub open spec fn key_index(keys: Seq<Seq<char>>, k: Seq<char>) -> Option<int> {
    if exists|i: int| 0 <= i < keys.len() && #[trigger] keys[i] == k {
        Some(choose|i: int| 0 <= i < keys.len() && #[trigger] keys[i] == k)
    } else {
        None
    }
}

pub(crate) proof fn lemma_push_key(keys: Seq<Seq<char>>, k: Seq<char>)
    requires
        keys_unique(keys),
        key_index(keys, k) is None,
    ensures
        keys_unique(keys.push(k)),
{
    assert forall|i: int, j: int| 0 <= i < j < keys.push(k).len() implies #[trigger] keys.push(k)[i]
        != #[trigger] keys.push(k)[j] by {
        if j == keys.len() {
            assert(keys[i] != k);
        } else {
            assert(keys[i] != keys[j]);
        }
    }
}

pub(crate) proof fn lemma_remove_key(keys: Seq<Seq<char>>, i: int)
    requires
        keys_unique(keys),
        0 <= i < keys.len(),
    ensures
        keys_unique(keys.remove(i)),
        key_index(keys.remove(i), keys[i]) is None,
{
    let t = keys.remove(i);
    assert forall|x: int, y: int| 0 <= x < y < t.len() implies #[trigger] t[x] != #[trigger] t[y] by {
        let xo = if x < i { x } else { x + 1 };
        let yo = if y < i { y } else { y + 1 };
        assert(keys[xo] != keys[yo]);
    }
    assert forall|x: int| 0 <= x < t.len() implies t[x] != keys[i] by {
        let xo = if x < i { x } else { x + 1 };
        assert(keys[xo] != keys[i]);
    }
}

pub proof fn lemma_key_index(keys: Seq<Seq<char>>, k: Seq<char>, i: int)
    requires
        keys_unique(keys),
        0 <= i < keys.len(),
        keys[i] == k,
    ensures
        key_index(keys, k) == Some(i),
{
    let j = choose|j: int| 0 <= j < keys.len() && #[trigger] keys[j] == k;
    assert(keys[i] == k);
    if j < i {
        assert(keys[j] != keys[i]);
    }
    if i < j {
        assert(keys[i] != keys[j]);
    }
}

/// The ids of the mines of `ms`.
pub open spec fn mine_ids(ms: Seq<Mine>) -> Seq<Seq<char>> {
    ms.map_values(|m: Mine| m.token_id@)
}

/// The ids of the stones of `ss`.
pub open spec fn stone_ids(ss: Seq<Stone>) -> Seq<Seq<char>> {
    ss.map_values(|st: Stone| st.token_id@)
}

/// The stone of `ss` with id `id`, if there is one.
pub open spec fn stone_in(ss: Seq<Stone>, id: Seq<char>) -> Option<Stone> {
    match key_index(stone_ids(ss), id) {
        Some(i) => Some(ss[i]),
        None => None,
    }
}

/// Whether stone `id` of inventory `inv` is a stone of `ss`, filed under its
/// rarity and its collection.
pub open spec fn filed_as_stored(inv: Inventory, ss: Seq<Stone>, id: Seq<char>) -> bool {
    stone_in(ss, id) matches Some(st) && inv.rarity_ids(st.card_rarity).contains(id)
        && inv.collection_ids(st.collection_id).contains(id)
}

/// Whether every stone that an account of `accs` holds is a stone of `ss`,
/// filed under its rarity and its collection.
pub open spec fn filed_stored(accs: Seq<AccountData>, ss: Seq<Stone>) -> bool {
    forall|i: int, id: Seq<char>|
        0 <= i < accs.len() && #[trigger] accs[i].stones.flat_ids().contains(id) ==> filed_as_stored(
            accs[i].stones,
            ss,
            id,
        )
}

/// Whether no stone is held by two accounts of `accs`.
pub open spec fn owners_disjoint(accs: Seq<AccountData>) -> bool {
    forall|i: int, j: int, id: Seq<char>|
        0 <= i < accs.len() && 0 <= j < accs.len() && i != j
            && #[trigger] accs[i].stones.flat_ids().contains(id) ==> !(
        #[trigger] accs[j].stones.flat_ids().contains(id))
}

pub(crate) proof fn lemma_stone_in_remove(ss: Seq<Stone>, k: int, x: Seq<char>)
    requires
        keys_unique(stone_ids(ss)),
        0 <= k < ss.len(),
        stone_ids(ss)[k] != x,
    ensures
        stone_in(ss.remove(k), x) == stone_in(ss, x),
{
    let t = ss.remove(k);
    assert(stone_ids(t) =~= stone_ids(ss).remove(k));
    lemma_remove_key(stone_ids(ss), k);
    if exists|j: int| 0 <= j < stone_ids(ss).len() && #[trigger] stone_ids(ss)[j] == x {
        let j = choose|j: int| 0 <= j < stone_ids(ss).len() && #[trigger] stone_ids(ss)[j] == x;
        lemma_key_index(stone_ids(ss), x, j);
        let jj = if j < k {
            j
        } else {
            j - 1
        };
        assert(t[jj] == ss[j]);
        assert(stone_ids(t)[jj] == x);
        lemma_key_index(stone_ids(t), x, jj);
    } else {
        assert forall|m: int| 0 <= m < t.len() implies stone_ids(t)[m] != x by {
            let mo = if m < k {
                m
            } else {
                m + 1
            };
            assert(stone_ids(t)[m] == stone_ids(ss)[mo]);
        }
    }
}

pub(crate) proof fn lemma_stone_in_append(ss: Seq<Stone>, extra: Seq<Stone>, x: Seq<char>)
    requires
        keys_unique(stone_ids(ss + extra)),
        stone_in(ss, x) is Some,
    ensures
        stone_in(ss + extra, x) == stone_in(ss, x),
{
    let k = key_index(stone_ids(ss), x)->Some_0;
    assert(0 <= k < ss.len() && stone_ids(ss)[k] == x);
    assert(stone_ids(ss + extra)[k] == x);
    assert((ss + extra)[k] == ss[k]);
    lemma_key_index(stone_ids(ss + extra), x, k);
}

pub(crate) proof fn lemma_contains_remove_value(s: Seq<Seq<char>>, v: Seq<char>, x: Seq<char>)
    requires
        s.no_duplicates(),
    ensures
        s.remove_value(v).contains(x) == (s.contains(x) && x != v),
{
    s.index_of_first_ensures(v);
    if s.contains(v) {
        let i = s.index_of_first(v)->Some_0;
        crate::inventory::lemma_remove_contains(s, i);
    }
}

pub(crate) proof fn lemma_contains_concat(a: Seq<Seq<char>>, b: Seq<Seq<char>>, x: Seq<char>)
    ensures
        (a + b).contains(x) == (a.contains(x) || b.contains(x)),
{
    if a.contains(x) {
        let k = choose|k: int| 0 <= k < a.len() && a[k] == x;
        assert((a + b)[k] == x);
    }
    if b.contains(x) {
        let k = choose|k: int| 0 <= k < b.len() && b[k] == x;
        assert((a + b)[a.len() + k] == x);
    }
    if (a + b).contains(x) {
        let k = choose|k: int| 0 <= k < (a + b).len() && (a + b)[k] == x;
        if k < a.len() {
            assert(a[k] == x);
        } else {
            assert(b[k - a.len()] == x);
        }
    }
}

/// Whether no two entries of `accs` are for the same account.
pub open spec fn accounts_unique(accs: Seq<AccountData>) -> bool {
    forall|i: int, j: int|
        0 <= i < j < accs.len() ==> #[trigger] accs[i].account_id@ != #[trigger] accs[j].account_id@
}

/// Whether every account other than `a1` and `a2` is found in `new` where it
/// was in `old`, with the same data.
pub open spec fn others_kept(
    new: Seq<AccountData>,
    old: Seq<AccountData>,
    a1: Seq<char>,
    a2: Seq<char>,
) -> bool {
    forall|b: Seq<char>|
        b != a1 && b != a2 ==> #[trigger] account_index(new, b) == account_index(old, b) && (
        account_index(old, b) matches Some(j) ==> new[j] == old[j])
}

/// The index of the entry of `accs` for account `a`, if any.
pub open spec fn account_index(accs: Seq<AccountData>, a: Seq<char>) -> Option<int> {
    if exists|i: int| 0 <= i < accs.len() && #[trigger] accs[i].account_id@ == a {
        Some(choose|i: int| 0 <= i < accs.len() && #[trigger] accs[i].account_id@ == a)
    } else {
        None
    }
}

pub(crate) proof fn lemma_index_update(old: Seq<AccountData>, new: Seq<AccountData>, ai: int)
    requires
        accounts_unique(old),
        new.len() == old.len(),
        0 <= ai < old.len(),
        forall|j: int| 0 <= j < old.len() && j != ai ==> new[j] == old[j],
        new[ai].account_id@ == old[ai].account_id@,
    ensures
        accounts_unique(new),
        others_kept(new, old, old[ai].account_id@, old[ai].account_id@),
{
    assert forall|x: int, y: int| 0 <= x < y < new.len() implies #[trigger] new[x].account_id@
        != #[trigger] new[y].account_id@ by {
        assert(old[x].account_id@ != old[y].account_id@);
    }
    let a = old[ai].account_id@;
    assert forall|b: Seq<char>| b != a && b != a implies #[trigger] account_index(new, b)
        == account_index(old, b) && (account_index(old, b) matches Some(j) ==> new[j] == old[j]) by {
        if exists|j: int| 0 <= j < old.len() && #[trigger] old[j].account_id@ == b {
            let j = choose|j: int| 0 <= j < old.len() && #[trigger] old[j].account_id@ == b;
            assert(j != ai);
            lemma_account_index(old, b, j);
            lemma_account_index(new, b, j);
        } else {
            assert forall|j: int| 0 <= j < new.len() implies #[trigger] new[j].account_id@ != b by {
                if j != ai {
                    assert(old[j].account_id@ != b);
                }
            }
        }
    }
}

pub(crate) proof fn lemma_index_push(old: Seq<AccountData>, x: AccountData)
    requires
        accounts_unique(old),
        forall|j: int| 0 <= j < old.len() ==> old[j].account_id@ != x.account_id@,
    ensures
        accounts_unique(old.push(x)),
        others_kept(old.push(x), old, x.account_id@, x.account_id@),
{
    let new = old.push(x);
    assert forall|p: int, q: int| 0 <= p < q < new.len() implies #[trigger] new[p].account_id@
        != #[trigger] new[q].account_id@ by {
        if q < old.len() {
            assert(old[p].account_id@ != old[q].account_id@);
        }
    }
    let a = x.account_id@;
    assert forall|b: Seq<char>| b != a && b != a implies #[trigger] account_index(new, b)
        == account_index(old, b) && (account_index(old, b) matches Some(j) ==> new[j] == old[j]) by {
        if exists|j: int| 0 <= j < old.len() && #[trigger] old[j].account_id@ == b {
            let j = choose|j: int| 0 <= j < old.len() && #[trigger] old[j].account_id@ == b;
            lemma_account_index(old, b, j);
            lemma_account_index(new, b, j);
        } else {
            assert forall|j: int| 0 <= j < new.len() implies #[trigger] new[j].account_id@ != b by {
                if j < old.len() {
                    assert(old[j].account_id@ != b);
                }
            }
        }
    }
}

pub(crate) proof fn lemma_others_trans(
    c: Seq<AccountData>,
    b_: Seq<AccountData>,
    a: Seq<AccountData>,
    a1: Seq<char>,
    a2: Seq<char>,
)
    requires
        others_kept(c, b_, a1, a2),
        others_kept(b_, a, a1, a2),
    ensures
        others_kept(c, a, a1, a2),
{
    assert forall|b: Seq<char>| b != a1 && b != a2 implies #[trigger] account_index(c, b)
        == account_index(a, b) && (account_index(a, b) matches Some(j) ==> c[j] == a[j]) by {
        assert(account_index(c, b) == account_index(b_, b));
        assert(account_index(b_, b) == account_index(a, b));
    }
}

pub(crate) proof fn lemma_others_widen(c: Seq<AccountData>, a: Seq<AccountData>, x: Seq<char>, y: Seq<char>)
    requires
        others_kept(c, a, x, x),
    ensures
        others_kept(c, a, x, y),
        others_kept(c, a, y, x),
{
    assert forall|b: Seq<char>| b != x && b != y implies #[trigger] account_index(c, b)
        == account_index(a, b) && (account_index(a, b) matches Some(j) ==> c[j] == a[j]) by {
        assert(account_index(c, b) == account_index(a, b));
    }
    assert forall|b: Seq<char>| b != y && b != x implies #[trigger] account_index(c, b)
        == account_index(a, b) && (account_index(a, b) matches Some(j) ==> c[j] == a[j]) by {
        assert(account_index(c, b) == account_index(a, b));
    }
}

pub(crate) proof fn lemma_account_index(accs: Seq<AccountData>, a: Seq<char>, i: int)
    requires
        accounts_unique(accs),
        0 <= i < accs.len(),
        accs[i].account_id@ == a,
    ensures
        account_index(accs, a) == Some(i),
{
    let k = choose|k: int| 0 <= k < accs.len() && #[trigger] accs[k].account_id@ == a;
    assert(accs[i].account_id@ == a);
    if k < i {
        assert(accs[k].account_id@ != accs[i].account_id@);
    }
    if i < k {
        assert(accs[i].account_id@ != accs[k].account_id@);
    }
}

impl Contract {
    /// The ids of the stones of account `a`, oldest first (none when the
    /// account is unknown).
    pub open spec fn flat_of(&self, a: Seq<char>) -> Seq<Seq<char>> {
        match account_index(self.accounts@, a) {
            Some(i) => self.accounts@[i].stones.flat_ids(),
            None => Seq::empty(),
        }
    }

    /// The ids in account `a`'s bucket of rarity `r`.
    pub open spec fn rarity_of(&self, a: Seq<char>, r: CardRarity) -> Seq<Seq<char>> {
        match account_index(self.accounts@, a) {
            Some(i) => self.accounts@[i].stones.rarity_ids(r),
            None => Seq::empty(),
        }
    }

    /// The ids in account `a`'s bucket of collection `c`.
    pub open spec fn collection_of(&self, a: Seq<char>, c: u32) -> Seq<Seq<char>> {
        match account_index(self.accounts@, a) {
            Some(i) => self.accounts@[i].stones.collection_ids(c),
            None => Seq::empty(),
        }
    }

    /// Whether account `a`'s stones are filed in `self` as in `old`.
    pub open spec fn inventory_kept(&self, old: &Contract, a: Seq<char>) -> bool {
        &&& self.flat_of(a) == old.flat_of(a)
        &&& forall|rr: CardRarity| #[trigger] self.rarity_of(a, rr) == old.rarity_of(a, rr)
        &&& forall|c: u32| #[trigger] self.collection_of(a, c) == old.collection_of(a, c)
    }

    /// The ids of the mines of account `a`, in the order it got them.
    pub open spec fn mines_of(&self, a: Seq<char>) -> Seq<Seq<char>> {
        match account_index(self.accounts@, a) {
            Some(i) => ids(self.accounts@[i].mines@),
            None => Seq::empty(),
        }
    }

    /// Every account's inventory is well formed.
    pub open spec fn wf(&self) -> bool {
        &&& accounts_unique(self.accounts@)
        &&& keys_unique(mine_ids(self.mines@))
        &&& keys_unique(stone_ids(self.stones@))
        &&& self.market.wf()
        &&& forall|i: int| 0 <= i < self.accounts@.len() ==> (#[trigger] self.accounts@[i]).stones.wf()
        &&& filed_stored(self.accounts@, self.stones@)
        &&& owners_disjoint(self.accounts@)
    }

    /// A contract owned by `owner_id`, with nothing minted yet.
    pub fn new(owner_id: String) -> (r: Contract)
        ensures
            r.wf(),
            r.owner_id == owner_id,
            r.mines@.len() == 0,
            r.stones@.len() == 0,
            r.accounts@.len() == 0,
            r.collections@.len() == 0,
            r.market.view().len() == 0,
            r.small_mines_count == 0 && r.medium_mines_count == 0 && r.large_mines_count == 0,
            r.stone_minted_count == 0 && r.stone_killed_count == 0,
    {
        Contract {
            owner_id,
            mines: Vec::new(),
            small_mines_count: 0,
            medium_mines_count: 0,
            large_mines_count: 0,
            stones: Vec::new(),
            stone_minted_count: 0,
            stone_killed_count: 0,
            accounts: Vec::new(),
            collections: Vec::new(),
            market: Market::new(),
            ft_storage_accounts: Vec::new(),
        }
    }

    /// How many stones account `a` may claim from mine `mine_id` at time
    /// `now`: the daily amount of the mine's type, if the account owns the
    /// mine and a day has passed since its last claim, else 0.
    pub open spec fn spec_claimable(&self, a: Seq<char>, mine_id: Seq<char>, now: u64) -> u8 {
        match self.mine_of(mine_id) {
            Some(m) => if self.mines_of(a).contains(mine_id) && m.last_stone_claim <= now - DAY_NS {
                spec_stones_per_day(m.mine_type)
            } else {
                0
            },
            None => 0,
        }
    }

    /// Whether no stone has an id of `ns` and account `a` holds none.
    pub open spec fn ids_unused(&self, a: Seq<char>, ns: Seq<Seq<char>>) -> bool {
        &&& forall|i: int| 0 <= i < ns.len() ==> #[trigger] self.stone_of(ns[i]) is None
        &&& forall|i: int| 0 <= i < ns.len() ==> !self.flat_of(a).contains(#[trigger] ns[i])
    }

    /// Whether the ids in `ns` are all new: unused, and none repeats.
    pub open spec fn ids_fresh(&self, a: Seq<char>, ns: Seq<Seq<char>>) -> bool {
        &&& ns.no_duplicates()
        &&& self.ids_unused(a, ns)
    }

    /// The refusal, if any, of a claim by account `a` on mine `mine_id` with
    /// this deposit, seed and time; each check in turn.
    pub open spec fn spec_claim_refusal(
        &self,
        a: Seq<char>,
        mine_id: Seq<char>,
        deposit: u128,
        seed: Seq<u8>,
        now: u64,
    ) -> Option<ClaimError> {
        let count = self.spec_claimable(a, mine_id, now);
        if count == 0 {
            Some(ClaimError::NothingToClaim)
        } else if deposit < spec_claim_deposit(count) {
            Some(ClaimError::DepositTooSmall)
        } else if seed.len() < 24 {
            Some(ClaimError::ShortSeed)
        } else if self.stone_minted_count + count > u32::MAX {
            Some(ClaimError::CountOverflow)
        } else if !(forall|num: int| 1 <= num <= count ==> #[trigger] draw_ok(seed, self.collections@, num)) {
            Some(ClaimError::NoCollection)
        } else {
            None
        }
    }

    /// The ids that a listing of account `a`'s stones with these filters
    /// walks, oldest first (none when the account is unknown).
    pub open spec fn filtered_of(&self, a: Seq<char>, fr: Option<CardRarity>, fc: Option<u32>) -> Seq<
        Seq<char>,
    > {
        match account_index(self.accounts@, a) {
            Some(i) => self.accounts@[i].stones.filtered_ids(fr, fc),
            None => Seq::empty(),
        }
    }

    /// Whether a stone with this id exists.
    pub open spec fn stored(&self) -> spec_fn(Seq<char>) -> bool {
        |x: Seq<char>| self.stone_of(x) is Some
    }

    /// Whether a mine with this id exists.
    pub open spec fn mine_stored(&self) -> spec_fn(Seq<char>) -> bool {
        |x: Seq<char>| self.mine_of(x) is Some
    }

    /// How many mines of type `t` have been minted.
    pub open spec fn spec_mines_count(&self, t: MineType) -> u32 {
        match t {
            MineType::Small => self.small_mines_count,
            MineType::Medium => self.medium_mines_count,
            MineType::Large => self.large_mines_count,
        }
    }

    /// Whether account `a` owns a small mine.
    pub open spec fn owns_small_mine(&self, a: Seq<char>) -> bool {
        exists|k: int|
            0 <= k < self.mines_of(a).len() && is_small_mine(#[trigger] self.mine_of(self.mines_of(a)[k]))
    }

    /// The mine with id `id`, if there is one.
    pub open spec fn mine_of(&self, id: Seq<char>) -> Option<Mine> {
        match key_index(mine_ids(self.mines@), id) {
            Some(i) => Some(self.mines@[i]),
            None => None,
        }
    }

    /// The stone with id `id`, if there is one.
    pub open spec fn stone_of(&self, id: Seq<char>) -> Option<Stone> {
        stone_in(self.stones@, id)
    }

    /// The index of the mine with id `id`, if there is one.
    pub fn find_mine(&self, id: &String) -> (r: Option<usize>)
        requires
            keys_unique(mine_ids(self.mines@)),
        ensures
            r matches Some(i) ==> key_index(mine_ids(self.mines@), id@) == Some(i as int),
            r is None ==> key_index(mine_ids(self.mines@), id@) is None,
    {
        let mut i: usize = 0;
        while i < self.mines.len()
            invariant
                i <= self.mines@.len(),
                keys_unique(mine_ids(self.mines@)),
                forall|j: int| 0 <= j < i ==> mine_ids(self.mines@)[j] != id@,
            decreases self.mines@.len() - i,
        {
            if self.mines[i].token_id == *id {
                proof {
                    lemma_key_index(mine_ids(self.mines@), id@, i as int);
                }
                return Some(i);
            }
            i += 1;
        }
        None
    }

    /// The index of the stone with id `id`, if there is one.
    pub fn find_stone(&self, id: &String) -> (r: Option<usize>)
        requires
            keys_unique(stone_ids(self.stones@)),
        ensures
            r matches Some(i) ==> key_index(stone_ids(self.stones@), id@) == Some(i as int),
            r is None ==> key_index(stone_ids(self.stones@), id@) is None,
    {
        let mut i: usize = 0;
        while i < self.stones.len()
            invariant
                i <= self.stones@.len(),
                keys_unique(stone_ids(self.stones@)),
                forall|j: int| 0 <= j < i ==> stone_ids(self.stones@)[j] != id@,
            decreases self.stones@.len() - i,
        {
            if self.stones[i].token_id == *id {
                proof {
                    lemma_key_index(stone_ids(self.stones@), id@, i as int);
                }
                return Some(i);
            }
            i += 1;
        }
        None
    }

    /// The index of the data of `account`, if it has any.
    pub fn find_account(&self, account: &String) -> (r: Option<usize>)
        requires
            accounts_unique(self.accounts@),
        ensures
            r matches Some(i) ==> account_index(self.accounts@, account@) == Some(i as int),
            r is None ==> account_index(self.accounts@, account@) is None,
    {
        let mut i: usize = 0;
        while i < self.accounts.len()
            invariant
                i <= self.accounts@.len(),
                accounts_unique(self.accounts@),
                forall|j: int| 0 <= j < i ==> self.accounts@[j].account_id@ != account@,
            decreases self.accounts@.len() - i,
        {
            if self.accounts[i].account_id == *account {
                proof {
                    lemma_account_index(self.accounts@, account@, i as int);
                }
                return Some(i);
            }
            i += 1;
        }
        None
    }

    /// The index of the data of `account`, which is added, empty, if it has
    /// none yet.
    pub(crate) fn account_entry(&mut self, account: &String) -> (r: usize)
        requires
            old(self).wf(),
        ensures
            final(self).wf(),
            r < final(self).accounts@.len(),
            account_index(final(self).accounts@, account@) == Some(r as int),
            final(self).accounts@[r as int].account_id@ == account@,
            account_index(old(self).accounts@, account@) matches Some(i) ==> i == r
                && final(self).accounts@ == old(self).accounts@,
            account_index(old(self).accounts@, account@) is None ==> final(self).accounts@
                == old(self).accounts@.push(final(self).accounts@[r as int]),
            forall|j: int| 0 <= j < old(self).accounts@.len() ==> final(self).accounts@[j] == old(self).accounts@[j],
            others_kept(final(self).accounts@, old(self).accounts@, account@, account@),
            ids(final(self).accounts@[r as int].mines@) == old(self).mines_of(account@),
            final(self).accounts@[r as int].stones.flat_ids() == old(self).flat_of(account@),
            forall|rr: CardRarity| #[trigger] final(self).accounts@[r as int].stones.rarity_ids(rr)
                == old(self).rarity_of(account@, rr),
            forall|c: u32| #[trigger] final(self).accounts@[r as int].stones.collection_ids(c)
                == old(self).collection_of(account@, c),
            final(self).owner_id == old(self).owner_id,
            final(self).mines == old(self).mines,
            final(self).stones == old(self).stones,
            final(self).collections == old(self).collections,
            final(self).market == old(self).market,
            final(self).ft_storage_accounts == old(self).ft_storage_accounts,
            final(self).small_mines_count == old(self).small_mines_count,
            final(self).medium_mines_count == old(self).medium_mines_count,
            final(self).large_mines_count == old(self).large_mines_count,
            final(self).stone_minted_count == old(self).stone_minted_count,
            final(self).stone_killed_count == old(self).stone_killed_count,
    {
        match self.find_account(account) {
            Some(i) => i,
            None => {
                let ghost pre = self.accounts@;
                let data = AccountData {
                    account_id: account.clone(),
                    mines: Vec::new(),
                    stones: Inventory::new(),
                };
                self.accounts.push(data);
                let i = self.accounts.len() - 1;
                assert(ids(self.accounts@[i as int].mines@) =~= Seq::<Seq<char>>::empty());
                assert forall|j: int| 0 <= j < i implies self.accounts@[j].account_id@ != account@ by {
                    assert(self.accounts@[j] == pre[j]);
                }
                proof {
                    lemma_index_push(pre, self.accounts@[i as int]);
                    lemma_account_index(self.accounts@, account@, i as int);
                }
                i
            },
        }
    }

    /// The counters: small, medium and large mines minted, stones minted,
    /// stones killed.
    pub open spec fn counters(&self) -> (u32, u32, u32, u32, u32) {
        (
            self.small_mines_count,
            self.medium_mines_count,
            self.large_mines_count,
            self.stone_minted_count,
            self.stone_killed_count,
        )
    }

    /// Why `caller` may not add this collection, if it may not: only the
    /// owner adds collections, every field must be non-empty, and the title
    /// must be new.
    pub open spec fn spec_collection_refusal(
        &self,
        caller: Seq<char>,
        title: Seq<char>,
        image: Seq<char>,
        stone_images: Seq<String>,
    ) -> Option<CollectionError> {
        if caller != self.owner_id@ {
            Some(CollectionError::NotOwner)
        } else if title.len() == 0 || image.len() == 0 || stone_images.len() == 0 {
            Some(CollectionError::MissingField)
        } else if has_title(self.collections@, title) {
            Some(CollectionError::AlreadyExists)
        } else {
            None
        }
    }

    /// Why `caller` may not add this collection, if it may not.
    pub fn collection_refusal(
        &self,
        caller: &String,
        title: &String,
        image: &String,
        stone_images: &Vec<String>,
    ) -> (r: Option<CollectionError>)
        ensures
            r == self.spec_collection_refusal(caller@, title@, image@, stone_images@),
    {
        if !(*caller == self.owner_id) {
            return Some(CollectionError::NotOwner);
        }
        if title.as_str().unicode_len() < 1 || image.as_str().unicode_len() < 1 || stone_images.len()
            < 1 {
            return Some(CollectionError::MissingField);
        }
        if title_taken(&self.collections, title) {
            return Some(CollectionError::AlreadyExists);
        }
        None
    }

    /// Adds a collection, which the caller may add. Its id is the number of
    /// collections after it is added.
    pub fn add_collection(
        &mut self,
        caller: &String,
        title: String,
        image: String,
        stone_images: Vec<String>,
    )
        requires
            old(self).wf(),
            old(self).spec_collection_refusal(caller@, title@, image@, stone_images@) is None,
        ensures
            final(self).wf(),
            final(self).collections@ == old(self).collections@.push(
                Collection { title, image, stone_images },
            ),
            final(self).accounts == old(self).accounts,
            final(self).stones == old(self).stones,
            final(self).mines == old(self).mines,
            final(self).market == old(self).market,
            final(self).ft_storage_accounts == old(self).ft_storage_accounts,
            final(self).counters() == old(self).counters(),
            final(self).owner_id == old(self).owner_id,
    {
        add_new_collection(&mut self.collections, title, image, stone_images);
    }

    /// All collections; the one at position `i` has id `i + 1`.
    pub fn get_collections(&self) -> (r: &Vec<Collection>)
        ensures
            r@ == self.collections@,
    {
        &self.collections
    }

    /// The collection with id `collection_id` (counted from 1), which exists.
    pub fn get_one_collection(&self, collection_id: u32) -> (r: &Collection)
        requires
            1 <= collection_id <= self.collections@.len(),
        ensures
            *r == self.collections@[collection_id - 1],
    {
        &self.collections[collection_id as usize - 1]
    }

    /// Records that `account` has storage on the fungible token contract.
    /// Returns true when it had none yet, that is when the storage must be
    /// paid for now.
    pub fn register_token_storage(&mut self, account: &String) -> (r: bool)
        ensures
            r == !ids(old(self).ft_storage_accounts@).contains(account@),
            r ==> ids(final(self).ft_storage_accounts@) == ids(old(self).ft_storage_accounts@).push(
                account@,
            ),
            !r ==> final(self).ft_storage_accounts == old(self).ft_storage_accounts,
            final(self).accounts == old(self).accounts,
            final(self).mines == old(self).mines,
            final(self).stones == old(self).stones,
            final(self).market == old(self).market,
            final(self).collections == old(self).collections,
            final(self).owner_id == old(self).owner_id,
            final(self).stone_minted_count == old(self).stone_minted_count,
            final(self).stone_killed_count == old(self).stone_killed_count,
            final(self).small_mines_count == old(self).small_mines_count,
            final(self).medium_mines_count == old(self).medium_mines_count,
            final(self).large_mines_count == old(self).large_mines_count,
    {
        if position(&self.ft_storage_accounts, account).is_some() {
            return false;
        }
        assert(ids(self.ft_storage_accounts@.push(*account)) =~= ids(self.ft_storage_accounts@).push(account@));
        self.ft_storage_accounts.push(account.clone());
        true
    }
}

} // verus!
