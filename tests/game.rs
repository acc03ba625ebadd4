use zommine::claims::{ClaimError, KillError};
use zommine::collection::CollectionError;
use zommine::contract::Contract;
use zommine::decimal::{parse_decimal, to_decimal};
use zommine::mine::{MineType, DAY_NS, SMALL_MINE_PRICE};
use zommine::mining::{MineError, TransferError};
use zommine::stone::CardRarity;
use zommine::trading::MarketError;

const MEDIUM: u128 = 5_000_000_000_000_000_000_000_000;
const LARGE: u128 = 9_000_000_000_000_000_000_000_000;
const ONE: u128 = 1_000_000_000_000_000_000_000_000;
const EIGHT_STONES: u128 = 60_000_000_000_000_000_000_000;

fn s(x: &str) -> String {
    x.to_string()
}

fn with_collection() -> Contract {
    let mut c = Contract::new(s("owner"));
    let images = vec![s("1-1"), s("1-2"), s("1-3")];
    assert_eq!(c.collection_refusal(&s("owner"), &s("Collection 1"), &s("image-1"), &images), None);
    c.add_collection(&s("owner"), s("Collection 1"), s("image-1"), images);
    c
}

fn mint(c: &mut Contract, account: &str, deposit: u128, rand: u8) -> zommine::Mine {
    assert_eq!(c.mine_refusal(&s(account), deposit), None);
    c.mint_mine(&s(account), deposit, rand).unwrap()
}

fn claim(c: &mut Contract, account: &str, mine: &str, deposit: u128, seed: &Vec<u8>, now: u64) -> Vec<zommine::Stone> {
    assert_eq!(c.claim_refusal(&s(account), &s(mine), deposit, seed, now), None);
    c.mint_free_stones(&s(account), &s(mine), deposit, seed, now).unwrap()
}

fn kill(c: &mut Contract, account: &str, stone: &str) -> zommine::Stone {
    assert_eq!(c.kill_refusal(&s(account), &s(stone)), None);
    c.stone_kill(&s(account), &s(stone))
}

#[test]
fn decimal_writing() {
    assert_eq!(to_decimal(0), "0");
    assert_eq!(to_decimal(7), "7");
    assert_eq!(to_decimal(1200), "1200");
    assert_eq!(to_decimal(u64::MAX as u128), "18446744073709551615");
    assert_eq!(to_decimal(u128::MAX), u128::MAX.to_string());
}

#[test]
fn decimal_reading() {
    assert_eq!(parse_decimal("0"), Some(0));
    assert_eq!(parse_decimal("140000000000000000000000000"), Some(140_000_000_000_000_000_000_000_000));
    assert_eq!(parse_decimal(&u128::MAX.to_string()), Some(u128::MAX));
    assert_eq!(parse_decimal("340282366920938463463374607431768211456"), None);
    assert_eq!(parse_decimal(""), None);
    assert_eq!(parse_decimal("+1"), None);
    assert_eq!(parse_decimal("1 "), None);
    assert_eq!(parse_decimal("0.5"), None);
}

#[test]
fn collections_need_owner_fields_and_a_new_title() {
    let mut c = with_collection();
    let images = vec![s("2-1"), s("2-2"), s("2-3")];
    let refusal = |c: &Contract, who: &str, title: &str, imgs: &Vec<String>| {
        c.collection_refusal(&s(who), &s(title), &s("image-2"), imgs)
    };
    assert_eq!(refusal(&c, "alice", "Collection 2", &images), Some(CollectionError::NotOwner));
    assert_eq!(refusal(&c, "owner", "", &images), Some(CollectionError::MissingField));
    assert_eq!(refusal(&c, "owner", "Collection 2", &vec![]), Some(CollectionError::MissingField));
    assert_eq!(refusal(&c, "owner", "Collection 1", &images), Some(CollectionError::AlreadyExists));
    assert_eq!(refusal(&c, "owner", "Collection 2", &images), None);
    c.add_collection(&s("owner"), s("Collection 2"), s("image-2"), images);
    assert_eq!(c.get_collections().len(), 2);
    assert_eq!(c.get_collections()[0].stone_images.len(), 3);
    assert_eq!(c.get_one_collection(1).stone_images.len(), 3);
    assert_eq!(c.get_one_collection(2).title, "Collection 2");
}

#[test]
fn mint_mines_of_each_type() {
    let mut c = with_collection();
    let small = mint(&mut c, "alice", SMALL_MINE_PRICE, 7);
    let medium = mint(&mut c, "alice", MEDIUM, 7);
    let large = mint(&mut c, "alice", LARGE, 42);
    assert_eq!(small.token_id, "s-1-7");
    assert_eq!(small.last_stone_claim, 0);
    assert_eq!(small.mine_type, MineType::Small);
    assert_eq!(small.sale_price, None);
    assert_eq!(medium.token_id, "m-1-7");
    assert_eq!(medium.mine_type, MineType::Medium);
    assert_eq!(large.token_id, "l-1-42");
    let mines = c.user_mines(&s("alice"));
    let got: Vec<&str> = mines.iter().map(|m| m.token_id.as_str()).collect();
    assert_eq!(got, vec!["l-1-42", "m-1-7", "s-1-7"]);
    let totals = c.total_mines_count();
    assert_eq!(totals.len(), 3);
    assert_eq!((totals[0].mine_type.as_str(), totals[0].total_count), ("Small", 1));
    assert_eq!((totals[1].mine_type.as_str(), totals[1].total_count), ("Medium", 1));
    assert_eq!((totals[2].mine_type.as_str(), totals[2].stone_per_day), ("Large", 8));
    assert_eq!(mint(&mut c, "bob", MEDIUM, 9).token_id, "m-2-9");
}

#[test]
fn second_small_mine_and_bad_deposits_are_refused() {
    let mut c = with_collection();
    mint(&mut c, "alice", SMALL_MINE_PRICE, 1);
    assert!(c.check_mint_free_mine(&s("alice")));
    assert!(!c.check_mint_free_mine(&s("bob")));
    assert_eq!(c.mine_refusal(&s("alice"), SMALL_MINE_PRICE), Some(MineError::SmallMineOwned));
    assert_eq!(c.mine_refusal(&s("alice"), 1), Some(MineError::DepositTooSmall));
    assert_eq!(c.mine_refusal(&s("alice"), 2 * SMALL_MINE_PRICE), Some(MineError::WrongDeposit));
    assert_eq!(c.mine_refusal(&s("bob"), SMALL_MINE_PRICE), None);
    assert_eq!(c.mines.len(), 1);
}

#[test]
fn claim_mints_stones_into_the_inventory() {
    let mut c = with_collection();
    let mine = mint(&mut c, "alice", SMALL_MINE_PRICE, 7);
    let now = 2 * DAY_NS;
    let times = c.stone_claim_time(&s("alice"), now);
    assert_eq!(times, vec![(s("s-1-7"), 0)]);
    let seed = vec![0u8; 32];
    let stones = claim(&mut c, "alice", &mine.token_id, SMALL_MINE_PRICE, &seed, now);
    assert_eq!(stones.len(), 1);
    let st = &stones[0];
    assert_eq!(st.token_id, "zm-1-01");
    assert_eq!(st.card_rarity, CardRarity::Legendary);
    assert_eq!((st.health, st.attack, st.brain), (1, 1, 0));
    assert_eq!(st.kill_tokens, (2 * 70 * ONE).to_string());
    assert_eq!(st.get_kill_tokens(2), 2 * 70 * ONE + 2 * ONE / 10);
    assert_eq!((st.collection_id, st.collection_index), (1, 0));
    assert_eq!(st.media, "1-1");
    assert_eq!(st.mint_date, now);
    assert_eq!(c.minted_stones_count(), 1);
    assert_eq!(c.user_collection_counts(&s("alice")), vec![(1, 1)]);
    let times = c.stone_claim_time(&s("alice"), now);
    assert_eq!(times, vec![(s("s-1-7"), DAY_NS)]);
    assert_eq!(
        c.claim_refusal(&s("alice"), &mine.token_id, SMALL_MINE_PRICE, &seed, now),
        Some(ClaimError::NothingToClaim)
    );
}

#[test]
fn large_mine_claim_and_kill() {
    let mut c = with_collection();
    let mine = mint(&mut c, "alice", LARGE, 3);
    let now = 5 * DAY_NS;
    let seed = vec![200u8; 32];
    assert_eq!(
        c.claim_refusal(&s("alice"), &mine.token_id, EIGHT_STONES - 1, &seed, now),
        Some(ClaimError::DepositTooSmall)
    );
    let stones = claim(&mut c, "alice", &mine.token_id, EIGHT_STONES, &seed, now);
    assert_eq!(stones.len(), 8);
    assert_eq!(stones[0].token_id, "zm-1-2001");
    assert_eq!(stones[7].token_id, "zm-8-2008");
    assert_eq!(stones[0].card_rarity, CardRarity::Common);
    assert_eq!(stones[0].kill_tokens, (7 * 2 * ONE).to_string());
    let (total, listed) = c.user_stones(&s("alice"), 1, 40, None, None);
    assert_eq!(total, 8);
    assert_eq!(listed.len(), 8);
    assert_eq!(listed[0].token_id, "zm-8-2008");
    let (total, page) = c.user_stones(&s("alice"), 2, 3, Some(CardRarity::Common), Some(1));
    assert_eq!(total, 8);
    let got: Vec<&str> = page.iter().map(|st| st.token_id.as_str()).collect();
    assert_eq!(got, vec!["zm-5-2005", "zm-4-2004", "zm-3-2003"]);

    let killed = kill(&mut c, "alice", "zm-8-2008");
    assert_eq!(killed.token_id, "zm-8-2008");
    assert_eq!(c.killed_stones_count(), 1);
    let (total, listed) = c.user_stones(&s("alice"), 1, 40, None, None);
    assert_eq!(total, 7);
    assert_eq!(listed.len(), 7);
    assert_eq!(c.kill_refusal(&s("alice"), &s("zm-8-2008")), Some(KillError::UnknownStone));
    assert_eq!(c.kill_refusal(&s("bob"), &s("zm-1-2001")), Some(KillError::NotOwned));
}

#[test]
fn claim_needs_a_collection() {
    let mut c = Contract::new(s("owner"));
    let mine = mint(&mut c, "alice", SMALL_MINE_PRICE, 7);
    let r = c.claim_refusal(&s("alice"), &mine.token_id, SMALL_MINE_PRICE, &vec![0u8; 32], DAY_NS);
    assert_eq!(r, Some(ClaimError::NoCollection));
    let r = c.claim_refusal(&s("alice"), &mine.token_id, SMALL_MINE_PRICE, &vec![0u8; 8], DAY_NS);
    assert_eq!(r, Some(ClaimError::ShortSeed));
    assert_eq!(c.mine_claim_free_stone_count(&s("bob"), &mine.token_id, DAY_NS), 0);
    assert_eq!(c.mine_claim_free_stone_count(&s("alice"), &mine.token_id, DAY_NS), 1);
}

#[test]
fn claim_draw_past_the_last_collection_is_refused() {
    let mut c = with_collection();
    let images = vec![s("2-1")];
    c.add_collection(&s("owner"), s("Collection 2"), s("image-2"), images.clone());
    c.add_collection(&s("owner"), s("Collection 3"), s("image-3"), images);
    let mine = mint(&mut c, "alice", SMALL_MINE_PRICE, 7);
    let mut seed = vec![0u8; 32];
    seed[1] = 255;
    let r = c.claim_refusal(&s("alice"), &mine.token_id, SMALL_MINE_PRICE, &seed, DAY_NS);
    assert_eq!(r, Some(ClaimError::NoCollection));
}

#[test]
fn transfer_moves_a_mine() {
    let mut c = with_collection();
    let mine = mint(&mut c, "alice", MEDIUM, 7);
    assert_eq!(c.transfer_refusal(&s("bob"), &mine.token_id, &s("carol")), Some(TransferError::NotOwned));
    assert_eq!(
        c.transfer_refusal(&s("alice"), &mine.token_id, &s("alice")),
        Some(TransferError::SelfTransfer)
    );
    assert_eq!(c.transfer_refusal(&s("alice"), &mine.token_id, &s("bob")), None);
    c.transfer_mine(&s("alice"), &mine.token_id, &s("bob"));
    assert!(c.user_mines(&s("alice")).is_empty());
    assert_eq!(c.user_mines(&s("bob"))[0].token_id, "m-1-7");
}

#[test]
fn market_lists_and_withdraws() {
    let mut c = with_collection();
    let mine = mint(&mut c, "alice", LARGE, 3);
    let seed = vec![0u8; 32];
    let stones = claim(&mut c, "alice", &mine.token_id, EIGHT_STONES, &seed, 3 * DAY_NS);
    let a = stones[0].token_id.clone();
    let b = stones[1].token_id.clone();
    assert_eq!(c.listing_refusal(&s("bob"), &vec![(a.clone(), 5)], true), Some(MarketError::NotOwned));
    let list = vec![(a.clone(), 5), (b.clone(), 7)];
    assert_eq!(c.listing_refusal(&s("alice"), &list, true), None);
    c.publish_stones_on_market(&s("alice"), list);
    let mines = vec![(mine.token_id.clone(), 9)];
    assert_eq!(c.listing_refusal(&s("alice"), &mines, false), None);
    c.publish_mines_on_market(&s("alice"), mines);
    assert_eq!(c.get_tokens_from_market(0, 10), vec![a.clone(), b.clone(), mine.token_id.clone()]);
    assert_eq!(c.get_tokens_from_market(1, 1), vec![b.clone()]);
    assert_eq!(c.get_tokens_from_market(5, 1), Vec::<String>::new());
    let on_sale = c.get_stones_from_market(0, 10);
    assert_eq!(on_sale.len(), 2);
    assert_eq!(on_sale[0].sale_price, Some(5));
    assert_eq!(on_sale[1].sale_price, Some(7));
    let on_sale_mines = c.get_mines_from_market(0, 10);
    assert_eq!(on_sale_mines.len(), 1);
    assert_eq!(on_sale_mines[0].sale_price, Some(9));
    c.publish_stones_on_market(&s("alice"), vec![(a.clone(), 6)]);
    assert_eq!(c.get_stones_from_market(0, 1)[0].sale_price, Some(6));
    assert!(!c.holds_all(&s("bob"), &vec![a.clone()], true));
    assert!(c.holds_all(&s("alice"), &vec![a.clone()], true));
    c.remove_stones_from_market(&s("alice"), vec![a.clone()]);
    // The last listing takes the withdrawn one's place.
    assert_eq!(c.get_tokens_from_market(0, 10), vec![mine.token_id.clone(), b.clone()]);
    assert!(c.holds_all(&s("alice"), &vec![mine.token_id.clone()], false));
    c.remove_mines_from_market(&s("alice"), vec![mine.token_id.clone()]);
    assert_eq!(c.get_tokens_from_market(0, 10), vec![b]);
}

#[test]
fn token_storage_is_registered_once() {
    let mut c = Contract::new(s("owner"));
    assert!(c.register_token_storage(&s("alice")));
    assert!(!c.register_token_storage(&s("alice")));
    assert!(c.register_token_storage(&s("bob")));
    assert_eq!(c.ft_storage_accounts, vec![s("alice"), s("bob")]);
}

#[test]
fn indexes_agree_after_claims_and_kills() {
    let mut c = with_collection();
    let images = vec![s("2-1"), s("2-2")];
    c.add_collection(&s("owner"), s("Collection 2"), s("image-2"), images);
    let mine = mint(&mut c, "alice", LARGE, 3);
    for day in 1u64..=4 {
        let seed: Vec<u8> = (0..32u8).map(|i| i.wrapping_mul(37).wrapping_add(day as u8 * 11)).collect();
        let stones = claim(&mut c, "alice", &mine.token_id, EIGHT_STONES, &seed, day * 2 * DAY_NS);
        assert_eq!(stones.len(), 8);
        kill(&mut c, "alice", &stones[day as usize].token_id);
    }
    let i = c.find_account(&s("alice")).unwrap();
    let inv = &c.accounts[i].stones;
    assert_eq!(inv.flat.len(), 28);
    let mut by_rarity: Vec<String> = vec![];
    for r in [CardRarity::Common, CardRarity::UnCommon, CardRarity::Rare, CardRarity::Legendary] {
        by_rarity.extend(inv.rarity_bucket(r).iter().cloned());
    }
    let mut by_collection: Vec<String> = vec![];
    for v in inv.by_collection.values() {
        by_collection.extend(v.iter().cloned());
    }
    let mut flat = inv.flat.clone();
    flat.sort();
    by_rarity.sort();
    by_collection.sort();
    assert_eq!(by_rarity, flat);
    assert_eq!(by_collection, flat);
    assert_eq!(c.minted_stones_count(), 32);
    assert_eq!(c.killed_stones_count(), 4);
    let counts = c.user_collection_counts(&s("alice"));
    assert_eq!(counts.len(), 2);
    assert_eq!(counts[0].1 + counts[1].1, 28);
}

#[test]
fn mine_limit_and_taken_id() {
    let mut c = Contract::new(s("owner"));
    for _ in 0..1999 {
        mint(&mut c, "alice", LARGE, 1);
    }
    assert_eq!(c.mines_count(MineType::Large), 1999);
    assert_eq!(c.mine_refusal(&s("alice"), LARGE), Some(MineError::LimitReached));
    let mut taken = c.mines[0].copy();
    taken.token_id = s("m-1-5");
    c.mines.push(taken);
    assert_eq!(c.mint_mine(&s("bob"), MEDIUM, 5).err(), Some(MineError::IdTaken));
    assert_eq!(mint(&mut c, "bob", MEDIUM, 6).token_id, "m-1-6");
}

#[test]
fn claim_and_kill_counters_and_taken_ids() {
    let mut c = with_collection();
    let mine = mint(&mut c, "alice", SMALL_MINE_PRICE, 7);
    let seed = vec![0u8; 32];
    c.stone_minted_count = u32::MAX;
    assert_eq!(
        c.claim_refusal(&s("alice"), &mine.token_id, SMALL_MINE_PRICE, &seed, DAY_NS),
        Some(ClaimError::CountOverflow)
    );
    c.stone_minted_count = 0;
    let stones = claim(&mut c, "alice", &mine.token_id, SMALL_MINE_PRICE, &seed, DAY_NS);
    // A second mine would draw the same id as the first claim.
    let other = mint(&mut c, "alice", MEDIUM, 7);
    c.stone_minted_count = 0;
    let four = 30_000_000_000_000_000_000_000;
    assert_eq!(c.claim_refusal(&s("alice"), &other.token_id, four, &seed, DAY_NS), None);
    assert_eq!(
        c.mint_free_stones(&s("alice"), &other.token_id, four, &seed, DAY_NS).err(),
        Some(ClaimError::IdTaken)
    );
    c.stone_killed_count = u32::MAX;
    assert_eq!(c.kill_refusal(&s("alice"), &stones[0].token_id), Some(KillError::CountOverflow));
    c.stone_killed_count = 0;
    let kept = c.stones.remove(0);
    assert_eq!(
        c.listing_refusal(&s("alice"), &vec![(kept.token_id.clone(), 1)], true),
        Some(MarketError::UnknownToken)
    );
}
