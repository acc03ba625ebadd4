//! Stone rarities and stats drawn from the seed, and stone rewards.

use vstd::prelude::*;
use crate::collection::Collection;
use crate::decimal::{parse_decimal, read_decimal};
use crate::mine::MineType;
use crate::random::{bucket, random_u8_range};

verus! {

/// One whole fungible token, in its smallest units (24 decimals).
pub const ONE_TOKEN: u128 = 1_000_000_000_000_000_000_000_000;

/// A tenth of a token: the reward added per step of the elapsed-time coefficient.
pub const TENTH_TOKEN: u128 = 100_000_000_000_000_000_000_000;

/// The quality class of a stone; it scales the stone's reward.
#[derive(Debug, Clone, Copy, PartialEq, Eq, Structural, Hash)]
pub enum CardRarity {
    Common,
    UnCommon,
    Rare,
    Legendary,
}

pub open spec fn rarity_name(r: CardRarity) -> Seq<char> {
    match r {
        CardRarity::Common => "Common"@,
        CardRarity::UnCommon => "UnCommon"@,
        CardRarity::Rare => "Rare"@,
        CardRarity::Legendary => "Legendary"@,
    }
}

impl CardRarity {
    /// The name of the rarity, as it is shown and parsed.
    pub fn to_string(&self) -> (r: String)
        ensures
            r@ == rarity_name(*self),
    {
        match self {
            CardRarity::Common => String::from_str("Common"),
            CardRarity::UnCommon => String::from_str("UnCommon"),
            CardRarity::Rare => String::from_str("Rare"),
            CardRarity::Legendary => String::from_str("Legendary"),
        }
    }

    /// The rarity whose name is `s`; `s` must name one.
    pub fn from_str(s: &str) -> (r: CardRarity)
        requires
            exists|c: CardRarity| rarity_name(c) == s@,
        ensures
            rarity_name(r) == s@,
    {
        let given = String::from_str(s);
        if given == String::from_str("Common") {
            CardRarity::Common
        } else if given == String::from_str("UnCommon") {
            CardRarity::UnCommon
        } else if given == String::from_str("Rare") {
            CardRarity::Rare
        } else {
            CardRarity::Legendary
        }
    }
}

/// A minted stone. `kill_tokens` is the base reward fixed at mint time,
/// written in decimal in the token's smallest units; `mint_date` is the block
/// time in nanoseconds.
pub struct Stone {
    pub token_id: String,
    pub card_rarity: CardRarity,
    pub sale_price: Option<u128>,
    pub kill_tokens: String,
    pub media: String,
    pub collection_id: u32,
    pub collection_index: u8,
    pub mint_date: u64,
    pub health: u8,
    pub attack: u8,
    pub brain: u8,
}

/// The rarity for a scaled draw `v` (0 to 1270) from a mine of type `t`:
/// each type has its own cut points, larger mines giving better odds.
pub open spec fn rarity_for(t: MineType, v: int) -> CardRarity {
    let (legendary, rare, uncommon) = match t {
        MineType::Small => (9int, 59int, 299int),
        MineType::Medium => (11int, 71int, 359int),
        MineType::Large => (14int, 89int, 449int),
    };
    if v <= legendary {
        CardRarity::Legendary
    } else if v <= rare {
        CardRarity::Rare
    } else if v <= uncommon {
        CardRarity::UnCommon
    } else {
        CardRarity::Common
    }
}

/// The reward multiplier of a rarity.
pub open spec fn rarity_multiplier(r: CardRarity) -> int {
    match r {
        CardRarity::Legendary => 70,
        CardRarity::Rare => 30,
        CardRarity::UnCommon => 8,
        CardRarity::Common => 2,
    }
}

/// The base reward of a stone: its stat total times the rarity multiplier,
/// in whole tokens.
pub open spec fn spec_kill_tokens(r: CardRarity, health: int, attack: int, brain: int) -> int {
    (health + attack + brain) * rarity_multiplier(r) * ONE_TOKEN
}

/// The reward paid for killing a stone with base reward `base` when the
/// elapsed-time coefficient is `coefficient`.
pub open spec fn kill_reward(base: int, coefficient: int) -> int {
    base + coefficient * TENTH_TOKEN
}

/// The rarity of the `num`-th stone of a claim on a mine of type `mine_type`,
/// drawn from the seed byte at `num`.
pub fn generate_stone_card_rarity(seed: &Vec<u8>, mine_type: &MineType, num: usize) -> (r:
    CardRarity)
    requires
        num < seed@.len(),
    ensures
        r == rarity_for(*mine_type, bucket(seed@[num as int] as int, 100) * 10),
{
    let rand_val: u32 = random_u8_range(seed, num, 100) as u32 * 10;
    let (legendary, rare, uncommon): (u32, u32, u32) = match mine_type {
        MineType::Small => (9, 59, 299),
        MineType::Medium => (11, 71, 359),
        MineType::Large => (14, 89, 449),
    };
    if rand_val <= legendary {
        CardRarity::Legendary
    } else if rand_val <= rare {
        CardRarity::Rare
    } else if rand_val <= uncommon {
        CardRarity::UnCommon
    } else {
        CardRarity::Common
    }
}

/// The collection of the `num`-th stone of a claim, among collections with
/// ids `1..=count`, drawn from the seed byte at `num`. The draw must land on
/// one of them (it can overshoot when 256 is not a multiple of `count`).
pub fn generate_stone_random_collection(seed: &Vec<u8>, num: usize, count: usize) -> (r: u32)
    requires
        num < seed@.len(),
        1 <= count <= 256,
        bucket(seed@[num as int] as int, count as int) < count,
    ensures
        r == bucket(seed@[num as int] as int, count as int) + 1,
        1 <= r <= count,
{
    let index = random_u8_range(seed, num, count);
    index as u32 + 1
}

/// The image of the `num`-th stone of a claim within `collection`: its index,
/// drawn from the seed byte at `num + 2` and set to 0 when the draw lands past
/// the last image, and the image at that index.
pub fn generate_stone_media(seed: &Vec<u8>, collection: &Collection, num: usize) -> (r: (
    String,
    u8,
))
    requires
        num + 2 < seed@.len(),
        1 <= collection.stone_images@.len() <= 256,
    ensures
        ({
            let b = bucket(seed@[num + 2] as int, collection.stone_images@.len() as int);
            let i = if b < collection.stone_images@.len() {
                b
            } else {
                0
            };
            r.1 as int == i && r.0@ == collection.stone_images@[i]@
        }),
{
    assert(seed.len() <= usize::MAX);
    let mut stone_index = random_u8_range(seed, 2 + num, collection.stone_images.len());
    if stone_index as usize >= collection.stone_images.len() {
        stone_index = 0;
    }
    let media_url = collection.stone_images[stone_index as usize].clone();
    (media_url, stone_index)
}

/// Health of the `num`-th stone of a claim: 1 plus the draw below 5 from the
/// seed byte at `num + 5`, so from 1 to 6.
pub fn generate_stone_health(seed: &Vec<u8>, num: usize) -> (r: u8)
    requires
        num + 5 < seed@.len(),
    ensures
        r as int == bucket(seed@[num + 5] as int, 5) + 1,
        1 <= r <= 6,
{
    assert(seed.len() <= usize::MAX);
    let rand_val = random_u8_range(seed, 5 + num, 5);
    assert(rand_val <= 5) by {
        assert(seed@[num + 5] as int / 51 <= 5);
    }
    rand_val + 1
}

/// Attack of the `num`-th stone of a claim: 1 plus the draw below 2 from the
/// seed byte at `num + 10`, so 1 or 2. The draw is below 2, not 3, on
/// purpose: stones already minted were drawn this way, and a wider draw
/// would change what a given seed yields.
pub fn generate_stone_attack(seed: &Vec<u8>, num: usize) -> (r: u8)
    requires
        num + 10 < seed@.len(),
    ensures
        r as int == bucket(seed@[num + 10] as int, 2) + 1,
        1 <= r <= 2,
{
    assert(seed.len() <= usize::MAX);
    let rand_val = random_u8_range(seed, 10 + num, 2);
    assert(seed@[num + 10] as int / 128 <= 1);
    rand_val + 1
}

/// Brain of the `num`-th stone of a claim: the draw below 2 from the seed
/// byte at `num + 15`, so 0 or 1; kept below 2 on purpose, as for attack.
pub fn generate_stone_brain(seed: &Vec<u8>, num: usize) -> (r: u8)
    requires
        num + 15 < seed@.len(),
    ensures
        r as int == bucket(seed@[num + 15] as int, 2),
        r <= 1,
{
    assert(seed.len() <= usize::MAX);
    let rand_val = random_u8_range(seed, 15 + num, 2);
    assert(seed@[num + 15] as int / 128 <= 1);
    rand_val
}

/// The base reward of a stone with these rarity and stats.
pub fn generate_stone_kill_tokens(card_rarity: &CardRarity, health: u8, attack: u8, brain: u8) -> (r:
    u128)
    requires
        health + attack + brain <= 255,
    ensures
        r as int == spec_kill_tokens(*card_rarity, health as int, attack as int, brain as int),
{
    let rarity: u128 = match card_rarity {
        CardRarity::Legendary => 70,
        CardRarity::Rare => 30,
        CardRarity::UnCommon => 8,
        CardRarity::Common => 2,
    };
    let total: u128 = health as u128 + attack as u128 + brain as u128;
    assert(total * rarity <= 255 * 70) by (nonlinear_arith)
        requires
            total <= 255,
            rarity <= 70,
    ;
    total * rarity * ONE_TOKEN
}

impl Stone {
    /// A copy of this stone.
    pub fn copy(&self) -> (r: Stone)
        ensures
            r == *self,
    {
        Stone {
            token_id: self.token_id.clone(),
            card_rarity: self.card_rarity,
            sale_price: self.sale_price,
            kill_tokens: self.kill_tokens.clone(),
            media: self.media.clone(),
            collection_id: self.collection_id,
            collection_index: self.collection_index,
            mint_date: self.mint_date,
            health: self.health,
            attack: self.attack,
            brain: self.brain,
        }
    }

    /// The reward for killing this stone when the elapsed-time coefficient is
    /// `coefficient`: the base reward plus a tenth of a token per step. The
    /// base reward must be a decimal number and the reward must fit in 128
    /// bits.
    pub fn get_kill_tokens(&self, coefficient: u128) -> (r: u128)
        requires
            read_decimal(self.kill_tokens@) is Some,
            kill_reward(read_decimal(self.kill_tokens@)->Some_0, coefficient as int) <= u128::MAX,
        ensures
            r == kill_reward(read_decimal(self.kill_tokens@)->Some_0, coefficient as int),
    {
        let base = match parse_decimal(self.kill_tokens.as_str()) {
            Some(b) => b,
            None => 0,
        };
        assert(coefficient * TENTH_TOKEN <= u128::MAX) by (nonlinear_arith)
            requires
                base + coefficient * TENTH_TOKEN <= u128::MAX,
                base >= 0,
        ;
        base + coefficient * TENTH_TOKEN
    }

    /// The reward for killing this stone with coefficient `coefficient`, or
    /// `None` when the base reward is not a decimal number or the reward
    /// does not fit in 128 bits.
    pub fn kill_tokens_checked(&self, coefficient: u128) -> (r: Option<u128>)
        ensures
            r == match read_decimal(self.kill_tokens@) {
                Some(base) => if kill_reward(base, coefficient as int) <= u128::MAX {
                    Some(kill_reward(base, coefficient as int) as u128)
                } else {
                    None::<u128>
                },
                None => None::<u128>,
            },
    {
        let base = match parse_decimal(self.kill_tokens.as_str()) {
            Some(b) => b,
            None => {
                return None;
            },
        };
        match coefficient.checked_mul(TENTH_TOKEN) {
            Some(bonus) => match base.checked_add(bonus) {
                Some(_) => Some(self.get_kill_tokens(coefficient)),
                None => None,
            },
            None => None,
        }
    }
}

/// For a fixed base reward, the kill reward never decreases as the
/// elapsed-time coefficient grows.
pub proof fn lemma_kill_reward_monotonic(base: int, c1: int, c2: int)
    requires
        0 <= c1 <= c2,
    ensures
        kill_reward(base, c1) <= kill_reward(base, c2),
{
    assert(c1 * TENTH_TOKEN <= c2 * TENTH_TOKEN) by (nonlinear_arith)
        requires
            c1 <= c2,
    ;
}

} // verus!
