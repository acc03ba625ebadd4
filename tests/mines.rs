use zommine::ft::{ft_mint_outcome, ft_mint_refusal, FtMintError};
use zommine::mine::{Mine, MineType, DAY_NS};

fn mine(mine_type: MineType, last: u64) -> Mine {
    Mine {
        token_id: "s-1-7".to_string(),
        mine_type,
        last_stone_claim: last,
        sale_price: None,
        media: String::new(),
    }
}

#[test]
fn mine_type_tables() {
    assert_eq!(Mine::mine_limits(&MineType::Small), 59999);
    assert_eq!(Mine::mine_limits(&MineType::Medium), 5999);
    assert_eq!(Mine::mine_limits(&MineType::Large), 1999);
    assert_eq!(Mine::mine_stone_per_day(&MineType::Small), 1);
    assert_eq!(Mine::mine_stone_per_day(&MineType::Medium), 4);
    assert_eq!(Mine::mine_stone_per_day(&MineType::Large), 8);
    assert_eq!(Mine::mine_prices(&MineType::Small), 10_000_000_000_000_000_000_000);
    assert_eq!(Mine::mine_prices(&MineType::Medium), 5_000_000_000_000_000_000_000_000);
    assert_eq!(Mine::mine_prices(&MineType::Large), 9_000_000_000_000_000_000_000_000);
    assert_eq!(
        Mine::mine_media_hash(&MineType::Small),
        "bafkreiay22z3j7gbgl4qucxc5l4f5grgw2lukesaphclj42cbsaznmgpqa"
    );
    assert_eq!(
        Mine::mine_media_hash(&MineType::Large),
        "bafkreiarhc2ivvhhcsfqiym6g3er7lnktdiw6rlmahco7l3awtvcvxve4m"
    );
}

#[test]
fn deposit_picks_the_type_with_that_price() {
    assert_eq!(Mine::type_for_deposit(10_000_000_000_000_000_000_000), Some(MineType::Small));
    assert_eq!(Mine::type_for_deposit(5_000_000_000_000_000_000_000_000), Some(MineType::Medium));
    assert_eq!(Mine::type_for_deposit(9_000_000_000_000_000_000_000_000), Some(MineType::Large));
    assert_eq!(Mine::type_for_deposit(20_000_000_000_000_000_000_000), None);
}

#[test]
fn claim_wait_counts_down_a_day() {
    let now = 10 * DAY_NS;
    assert_eq!(mine(MineType::Small, 0).claim_wait(now), 0);
    assert_eq!(mine(MineType::Small, now - DAY_NS).claim_wait(now), 0);
    assert_eq!(mine(MineType::Small, now).claim_wait(now), DAY_NS);
    assert_eq!(mine(MineType::Small, now - 1000).claim_wait(now), DAY_NS - 1000);
}

#[test]
fn claimable_stones_after_cooldown() {
    let now = 10 * DAY_NS;
    assert_eq!(mine(MineType::Small, 0).claimable_stones(now), 1);
    assert_eq!(mine(MineType::Medium, 0).claimable_stones(now), 4);
    assert_eq!(mine(MineType::Large, now - DAY_NS).claimable_stones(now), 8);
    assert_eq!(mine(MineType::Large, now - DAY_NS + 1).claimable_stones(now), 0);
}

#[test]
fn mine_type_names_round_trip() {
    for t in [MineType::Small, MineType::Medium, MineType::Large] {
        assert_eq!(MineType::from_str(&t.to_string()), t);
    }
    assert_eq!(MineType::Medium.to_string(), "Medium");
}

#[test]
fn token_account_opening_refunds_unused_deposit() {
    assert_eq!(ft_mint_outcome(0, 10, 100, 7, 1000), (10, Some(300)));
    assert_eq!(ft_mint_outcome(0, 10, 100, 7, 701), (10, None));
    assert_eq!(ft_mint_outcome(0, 10, 100, 7, 700), (10, None));
    assert_eq!(ft_mint_refusal(0, 10, 100, 7, 700), None);
    assert_eq!(ft_mint_refusal(0, 10, 100, 7, 699), Some(FtMintError::DepositTooSmall));
    assert_eq!(ft_mint_refusal(5, 10, 100, 7, 1000), Some(FtMintError::NonZeroAmount));
    assert_eq!(ft_mint_refusal(0, u128::MAX, 1, 1, 10), None);
    assert_eq!(ft_mint_refusal(0, 10, u64::MAX, u128::MAX, u128::MAX), Some(FtMintError::DepositTooSmall));
}
