//! Opening player accounts on the game's fungible token.

use vstd::prelude::*;

verus! {

/// 0.001 NEAR in yoctoNEAR: what the game deposits to open a player's
/// account on the token contract.
pub const FT_STORAGE_DEPOSIT: u128 = 1_000_000_000_000_000_000_000;

/// Why the token contract refused to open an account.
#[derive(Debug, Clone, Copy, PartialEq, Eq, Structural)]
pub enum FtMintError {
    /// Only zero tokens may be minted: the call only opens the account.
    NonZeroAmount,
    /// The total supply would pass `u128::MAX`.
    SupplyOverflow,
    /// The deposit does not pay for the storage the account took.
    DepositTooSmall,
}

/// Why the token contract refuses to open an account with `amount` tokens
/// when the supply is `total_supply`, the call took `storage_used` bytes at
/// `byte_cost` each and `attached` was deposited, if it refuses.
pub open spec fn spec_ft_mint_refusal(
    amount: u128,
    total_supply: u128,
    storage_used: u64,
    byte_cost: u128,
    attached: u128,
) -> Option<FtMintError> {
    if amount != 0 {
        Some(FtMintError::NonZeroAmount)
    } else if total_supply + amount > u128::MAX {
        Some(FtMintError::SupplyOverflow)
    } else if byte_cost * storage_used > attached {
        Some(FtMintError::DepositTooSmall)
    } else {
        None
    }
}

/// Why the token contract refuses to open the account, if it does.
pub fn ft_mint_refusal(
    amount: u128,
    total_supply: u128,
    storage_used: u64,
    byte_cost: u128,
    attached: u128,
) -> (r: Option<FtMintError>)
    ensures
        r == spec_ft_mint_refusal(amount, total_supply, storage_used, byte_cost, attached),
{
    if amount != 0 {
        return Some(FtMintError::NonZeroAmount);
    }
    if total_supply.checked_add(amount).is_none() {
        return Some(FtMintError::SupplyOverflow);
    }
    match byte_cost.checked_mul(storage_used as u128) {
        Some(c) => if c > attached {
            Some(FtMintError::DepositTooSmall)
        } else {
            None
        },
        None => Some(FtMintError::DepositTooSmall),
    }
}

/// The outcome of opening an account on the token contract with `amount`
/// tokens, when the supply was `total_supply`, the call took `storage_used`
/// bytes at `byte_cost` each and `attached` was deposited: the new supply,
/// and the refund of what the storage did not use when it is above 1. The
/// contract must not refuse.
pub fn ft_mint_outcome(
    amount: u128,
    total_supply: u128,
    storage_used: u64,
    byte_cost: u128,
    attached: u128,
) -> (r: (u128, Option<u128>))
    requires
        spec_ft_mint_refusal(amount, total_supply, storage_used, byte_cost, attached) is None,
    ensures
        ({
            let required = byte_cost * storage_used;
            r == (
                (total_supply + amount) as u128,
                if attached - required > 1 {
                    Some((attached - required) as u128)
                } else {
                    None
                },
            )
        }),
{
    let supply = total_supply + amount;
    let required = byte_cost * storage_used as u128;
    let refund = attached - required;
    if refund > 1 {
        (supply, Some(refund))
    } else {
        (supply, None)
    }
}

} // verus!
