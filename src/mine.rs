//! Mine types, their fixed tables, and a mine's claim window.

use vstd::prelude::*;

verus! {

/// One day in nanoseconds, the cooldown between two stone claims of a mine.
pub const DAY_NS: u64 = 86_400_000_000_000;

/// 0.01 NEAR in yoctoNEAR: the price of a small mine and of a single stone claim.
pub const SMALL_MINE_PRICE: u128 = 10_000_000_000_000_000_000_000;

/// 5 NEAR in yoctoNEAR.
pub const MEDIUM_MINE_PRICE: u128 = 5_000_000_000_000_000_000_000_000;

/// 9 NEAR in yoctoNEAR.
pub const LARGE_MINE_PRICE: u128 = 9_000_000_000_000_000_000_000_000;

/// The size of a mine; it decides the price, the mint limit, how many stones
/// a claim yields and the rarity odds of those stones.
#[derive(Debug, Clone, Copy, PartialEq, Eq, Structural, Hash)]
pub enum MineType {
    Small,
    Medium,
    Large,
}

pub open spec fn mine_type_name(t: MineType) -> Seq<char> {
    match t {
        MineType::Small => "Small"@,
        MineType::Medium => "Medium"@,
        MineType::Large => "Large"@,
    }
}

impl MineType {
    /// The name of the mine type, as it is shown and parsed.
    pub fn to_string(&self) -> (r: String)
        ensures
            r@ == mine_type_name(*self),
    {
        match self {
            MineType::Small => String::from_str("Small"),
            MineType::Medium => String::from_str("Medium"),
            MineType::Large => String::from_str("Large"),
        }
    }

    /// The mine type whose name is `s`; `s` must name one.
    pub fn from_str(s: &str) -> (r: MineType)
        requires
            exists|t: MineType| mine_type_name(t) == s@,
        ensures
            mine_type_name(r) == s@,
    {
        let given = String::from_str(s);
        if given == String::from_str("Small") {
            MineType::Small
        } else if given == String::from_str("Medium") {
            MineType::Medium
        } else {
            MineType::Large
        }
    }
}

pub open spec fn spec_mine_limit(t: MineType) -> u32 {
    match t {
        MineType::Small => 59999,
        MineType::Medium => 5999,
        MineType::Large => 1999,
    }
}

pub open spec fn spec_stones_per_day(t: MineType) -> u8 {
    match t {
        MineType::Small => 1,
        MineType::Medium => 4,
        MineType::Large => 8,
    }
}

pub open spec fn spec_mine_price(t: MineType) -> u128 {
    match t {
        MineType::Small => SMALL_MINE_PRICE,
        MineType::Medium => MEDIUM_MINE_PRICE,
        MineType::Large => LARGE_MINE_PRICE,
    }
}

pub open spec fn small_media() -> Seq<char> {
    "bafkreiay22z3j7gbgl4qucxc5l4f5grgw2lukesaphclj42cbsaznmgpqa"@
}

pub open spec fn large_media() -> Seq<char> {
    "bafkreiarhc2ivvhhcsfqiym6g3er7lnktdiw6rlmahco7l3awtvcvxve4m"@
}

pub open spec fn spec_mine_media(t: MineType) -> Seq<char> {
    match t {
        MineType::Small => small_media(),
        _ => large_media(),
    }
}

/// The mine type that a deposit buys: the one whose price equals it exactly.
pub open spec fn spec_type_for_deposit(deposit: u128) -> Option<MineType> {
    if deposit == SMALL_MINE_PRICE {
        Some(MineType::Small)
    } else if deposit == MEDIUM_MINE_PRICE {
        Some(MineType::Medium)
    } else if deposit == LARGE_MINE_PRICE {
        Some(MineType::Large)
    } else {
        None
    }
}

/// Totals of one mine type, as listed for all types together.
pub struct TotalMineResponse {
    pub total_count: u32,
    pub price: u128,
    pub stone_per_day: u8,
    pub media: String,
    pub mine_type: String,
}

/// A mine owned by an account. `last_stone_claim` is the block time in
/// nanoseconds of its latest stone claim (zero before the first).
pub struct Mine {
    pub token_id: String,
    pub mine_type: MineType,
    pub last_stone_claim: u64,
    pub sale_price: Option<u128>,
    pub media: String,
}

/// Nanoseconds still to wait before a mine whose last claim was at `last`
/// can be claimed again at time `now` (zero when it can be claimed now).
pub open spec fn spec_claim_wait(last: u64, now: u64) -> int {
    let allowed = now - DAY_NS;
    if last <= allowed {
        0
    } else {
        last - allowed
    }
}

impl Mine {
    /// A copy of this mine.
    pub fn copy(&self) -> (r: Mine)
        ensures
            r == *self,
    {
        Mine {
            token_id: self.token_id.clone(),
            mine_type: self.mine_type,
            last_stone_claim: self.last_stone_claim,
            sale_price: self.sale_price,
            media: self.media.clone(),
        }
    }

    /// The content hash of the image of a mine type.
    pub fn mine_media_hash(mine_type: &MineType) -> (r: String)
        ensures
            r@ == spec_mine_media(*mine_type),
    {
        match mine_type {
            MineType::Small => String::from_str(
                "bafkreiay22z3j7gbgl4qucxc5l4f5grgw2lukesaphclj42cbsaznmgpqa",
            ),
            _ => String::from_str("bafkreiarhc2ivvhhcsfqiym6g3er7lnktdiw6rlmahco7l3awtvcvxve4m"),
        }
    }

    /// How many mines of a type can ever be minted.
    pub fn mine_limits(mine_type: &MineType) -> (r: u32)
        ensures
            r == spec_mine_limit(*mine_type),
    {
        match mine_type {
            MineType::Small => 59999,
            MineType::Medium => 5999,
            MineType::Large => 1999,
        }
    }

    /// How many stones one claim of a mine of this type yields.
    pub fn mine_stone_per_day(mine_type: &MineType) -> (r: u8)
        ensures
            r == spec_stones_per_day(*mine_type),
    {
        match mine_type {
            MineType::Small => 1,
            MineType::Medium => 4,
            MineType::Large => 8,
        }
    }

    /// The price of a mine of this type, in yoctoNEAR.
    pub fn mine_prices(mine_type: &MineType) -> (r: u128)
        ensures
            r == spec_mine_price(*mine_type),
    {
        let small_deposit: u128 = SMALL_MINE_PRICE;
        match mine_type {
            MineType::Small => small_deposit,
            MineType::Medium => small_deposit * 100 * 5,
            MineType::Large => small_deposit * 100 * 9,
        }
    }

    /// The mine type whose price is exactly `deposit`, if any.
    pub fn type_for_deposit(deposit: u128) -> (r: Option<MineType>)
        ensures
            r == spec_type_for_deposit(deposit),
    {
        if deposit == Mine::mine_prices(&MineType::Small) {
            Some(MineType::Small)
        } else if deposit == Mine::mine_prices(&MineType::Medium) {
            Some(MineType::Medium)
        } else if deposit == Mine::mine_prices(&MineType::Large) {
            Some(MineType::Large)
        } else {
            None
        }
    }

    /// Nanoseconds left before this mine can be claimed at time `now`.
    pub fn claim_wait(&self, now: u64) -> (r: u64)
        requires
            now >= DAY_NS,
        ensures
            r as int == spec_claim_wait(self.last_stone_claim, now),
    {
        let allowed = now - DAY_NS;
        if self.last_stone_claim <= allowed {
            0
        } else {
            self.last_stone_claim - allowed
        }
    }

    /// How many stones a claim of this mine at time `now` yields: the daily
    /// amount of its type once a day has passed since the last claim, else 0.
    pub fn claimable_stones(&self, now: u64) -> (r: u8)
        requires
            now >= DAY_NS,
        ensures
            r == (if self.last_stone_claim <= now - DAY_NS {
                spec_stones_per_day(self.mine_type)
            } else {
                0
            }),
    {
        if self.last_stone_claim <= now - DAY_NS {
            Mine::mine_stone_per_day(&self.mine_type)
        } else {
            0
        }
    }
}

} // verus!
