//! A play-to-earn game's rules: mines yield stones on a daily cooldown, stones
//! are drawn from the block's random seed and filed in per-account
//! inventories, and mines and stones can be traded on a market.


pub mod collection;
pub mod claims;
pub mod contract;
pub mod decimal;
pub mod ft;
pub mod inventory;
pub mod market;
pub mod mining;
pub mod mine;
pub mod page;
pub mod random;
pub mod stone;
pub mod trading;
pub mod units;

pub use crate::collection::Collection;
pub use crate::contract::Contract;
pub use crate::mine::{Mine, MineType, TotalMineResponse};
pub use crate::stone::{CardRarity, Stone};
