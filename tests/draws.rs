use zommine::collection::Collection;
use zommine::mine::MineType;
use zommine::random::{random_u8, random_u8_range};
use zommine::stone::{
    generate_stone_attack, generate_stone_brain, generate_stone_card_rarity, generate_stone_health,
    generate_stone_kill_tokens, generate_stone_media, generate_stone_random_collection,
    CardRarity, Stone,
};

fn seed_of(byte: u8) -> Vec<u8> {
    vec![byte; 32]
}

#[test]
fn random_byte_is_read_at_index() {
    let mut seed = seed_of(0);
    seed[5] = 77;
    assert_eq!(random_u8(&seed, 5), 77);
    assert_eq!(random_u8(&seed, 4), 0);
}

#[test]
fn range_divides_by_floor_of_256_over_max() {
    let mut seed = seed_of(0);
    seed[0] = 255;
    seed[1] = 100;
    assert_eq!(random_u8_range(&seed, 1, 100), 50);
    assert_eq!(random_u8_range(&seed, 1, 256), 100);
    assert_eq!(random_u8_range(&seed, 0, 2), 1);
    assert_eq!(random_u8_range(&seed, 0, 1), 0);
    assert_eq!(random_u8_range(&seed, 0, 0), 0);
}

#[test]
fn range_can_reach_max_when_256_is_not_a_multiple() {
    let mut seed = seed_of(0);
    seed[0] = 255;
    // 256 / 3 = 85 and 255 / 85 = 3: one past the intended top.
    assert_eq!(random_u8_range(&seed, 0, 3), 3);
    // 256 / 5 = 51 and 255 / 51 = 5.
    assert_eq!(random_u8_range(&seed, 0, 5), 5);
}

#[test]
fn range_stays_below_256_over_divider() {
    for max in 1usize..=256 {
        let divider = 256 / max;
        for e in 0u16..=255 {
            let seed = vec![e as u8; 1];
            let v = random_u8_range(&seed, 0, max) as usize;
            assert!(v * divider < 256, "max {} byte {}", max, e);
        }
    }
}

#[test]
fn rarity_cut_points_per_mine_type() {
    // byte b gives (b / 2) * 10.
    let at = |b: u8, t: MineType| generate_stone_card_rarity(&vec![b; 32], &t, 1);
    assert_eq!(at(1, MineType::Small), CardRarity::Legendary); // 0
    assert_eq!(at(2, MineType::Small), CardRarity::Rare); // 10
    assert_eq!(at(11, MineType::Small), CardRarity::Rare); // 50
    assert_eq!(at(12, MineType::Small), CardRarity::UnCommon); // 60
    assert_eq!(at(59, MineType::Small), CardRarity::UnCommon); // 290
    assert_eq!(at(60, MineType::Small), CardRarity::Common); // 300
    assert_eq!(at(2, MineType::Medium), CardRarity::Legendary); // 10
    assert_eq!(at(14, MineType::Medium), CardRarity::Rare); // 70
    assert_eq!(at(16, MineType::Medium), CardRarity::UnCommon); // 80
    assert_eq!(at(72, MineType::Medium), CardRarity::Common); // 360
    assert_eq!(at(2, MineType::Large), CardRarity::Legendary); // 10
    assert_eq!(at(4, MineType::Large), CardRarity::Rare); // 20
    assert_eq!(at(89, MineType::Large), CardRarity::UnCommon); // 440
    assert_eq!(at(90, MineType::Large), CardRarity::Common); // 450
    assert_eq!(at(255, MineType::Large), CardRarity::Common); // 1270
}

#[test]
fn stats_from_seed_bytes() {
    let mut seed = seed_of(0);
    seed[1 + 5] = 255;
    seed[1 + 10] = 128;
    seed[1 + 15] = 127;
    assert_eq!(generate_stone_health(&seed, 1), 6);
    assert_eq!(generate_stone_attack(&seed, 1), 2);
    assert_eq!(generate_stone_brain(&seed, 1), 0);
    let zero = seed_of(0);
    assert_eq!(generate_stone_health(&zero, 3), 1);
    assert_eq!(generate_stone_attack(&zero, 3), 1);
    assert_eq!(generate_stone_brain(&zero, 3), 0);
    let high = seed_of(200);
    assert_eq!(generate_stone_health(&high, 2), 4);
    assert_eq!(generate_stone_attack(&high, 2), 2);
    assert_eq!(generate_stone_brain(&high, 2), 1);
}

#[test]
fn collection_draw_picks_an_id() {
    let mut seed = seed_of(0);
    seed[1] = 170;
    assert_eq!(generate_stone_random_collection(&seed, 1, 3), 3);
    seed[1] = 0;
    assert_eq!(generate_stone_random_collection(&seed, 1, 3), 1);
    seed[1] = 255;
    assert_eq!(generate_stone_random_collection(&seed, 1, 1), 1);
}

#[test]
fn media_draw_falls_back_to_first_image() {
    let c = Collection {
        title: "Collection 1".to_string(),
        image: "image-1".to_string(),
        stone_images: vec!["1-1".to_string(), "1-2".into(), "1-3".into()],
    };
    let mut seed = seed_of(0);
    seed[3] = 255;
    assert_eq!(generate_stone_media(&seed, &c, 1), ("1-1".to_string(), 0));
    seed[3] = 90;
    assert_eq!(generate_stone_media(&seed, &c, 1), ("1-2".to_string(), 1));
}

#[test]
fn kill_tokens_formula() {
    let one: u128 = 1_000_000_000_000_000_000_000_000;
    assert_eq!(generate_stone_kill_tokens(&CardRarity::Legendary, 6, 2, 1), 9 * 70 * one);
    assert_eq!(generate_stone_kill_tokens(&CardRarity::Rare, 1, 1, 0), 2 * 30 * one);
    assert_eq!(generate_stone_kill_tokens(&CardRarity::UnCommon, 3, 2, 1), 6 * 8 * one);
    assert_eq!(generate_stone_kill_tokens(&CardRarity::Common, 4, 2, 1), 7 * 2 * one);
}

fn stone(kill_tokens: u128) -> Stone {
    Stone {
        token_id: "zm-1-01".to_string(),
        card_rarity: CardRarity::Common,
        sale_price: None,
        kill_tokens: kill_tokens.to_string(),
        media: "1-1".to_string(),
        collection_id: 1,
        collection_index: 0,
        mint_date: 0,
        health: 1,
        attack: 1,
        brain: 0,
    }
}

#[test]
fn kill_reward_adds_a_tenth_per_step() {
    let tenth: u128 = 100_000_000_000_000_000_000_000;
    let s = stone(4_000_000_000_000_000_000_000_000);
    assert_eq!(s.get_kill_tokens(0), 4_000_000_000_000_000_000_000_000);
    assert_eq!(s.get_kill_tokens(3), 4_000_000_000_000_000_000_000_000 + 3 * tenth);
    assert_eq!(s.kill_tokens_checked(3), Some(4_000_000_000_000_000_000_000_000 + 3 * tenth));
    assert_eq!(stone(u128::MAX).kill_tokens_checked(1), None);
    assert_eq!(stone(0).kill_tokens_checked(u128::MAX), None);
    let mut odd = stone(0);
    odd.kill_tokens = "12a".to_string();
    assert_eq!(odd.kill_tokens_checked(0), None);
    odd.kill_tokens = String::new();
    assert_eq!(odd.kill_tokens_checked(0), None);
}

#[test]
fn kill_reward_never_drops_as_time_grows() {
    let s = stone(14_000_000_000_000_000_000_000_000);
    let mut last = 0u128;
    for c in 0u128..64 {
        let r = s.get_kill_tokens(c);
        assert!(r >= last);
        last = r;
    }
}

#[test]
fn rarity_names_round_trip() {
    for r in [CardRarity::Common, CardRarity::UnCommon, CardRarity::Rare, CardRarity::Legendary] {
        assert_eq!(CardRarity::from_str(&r.to_string()), r);
    }
    assert_eq!(CardRarity::Legendary.to_string(), "Legendary");
}
