use std::collections::HashSet;
use zommine::inventory::Inventory;
use zommine::page::paginate;
use zommine::stone::CardRarity;

fn ids(list: &[&str]) -> Vec<String> {
    list.iter().map(|s| s.to_string()).collect()
}

const RARITIES: [CardRarity; 4] =
    [CardRarity::Common, CardRarity::UnCommon, CardRarity::Rare, CardRarity::Legendary];

fn check_indexes_agree(inv: &Inventory) {
    let flat: HashSet<String> = inv.flat.iter().cloned().collect();
    let mut by_rarity: Vec<String> = vec![];
    for r in RARITIES {
        by_rarity.extend(inv.rarity_bucket(r).iter().cloned());
    }
    let mut by_collection: Vec<String> = vec![];
    for v in inv.by_collection.values() {
        by_collection.extend(v.iter().cloned());
    }
    assert_eq!(by_rarity.len(), inv.flat.len());
    assert_eq!(by_collection.len(), inv.flat.len());
    assert_eq!(by_rarity.into_iter().collect::<HashSet<_>>(), flat);
    assert_eq!(by_collection.into_iter().collect::<HashSet<_>>(), flat);
}

#[test]
fn add_files_under_all_three_indexes() {
    let mut inv = Inventory::new();
    assert!(inv.add("a".to_string(), CardRarity::Rare, 1));
    assert!(inv.add("b".to_string(), CardRarity::Common, 2));
    assert!(inv.add("c".to_string(), CardRarity::Rare, 2));
    assert_eq!(inv.flat, ids(&["a", "b", "c"]));
    assert_eq!(inv.rarity_bucket(CardRarity::Rare), &ids(&["a", "c"]));
    assert_eq!(inv.rarity_bucket(CardRarity::Common), &ids(&["b"]));
    assert!(inv.rarity_bucket(CardRarity::Legendary).is_empty());
    assert_eq!(inv.by_collection.get(&2), Some(&ids(&["b", "c"])));
    check_indexes_agree(&inv);
}

#[test]
fn add_refuses_a_held_id() {
    let mut inv = Inventory::new();
    assert!(inv.add("a".to_string(), CardRarity::Rare, 1));
    assert!(!inv.add("a".to_string(), CardRarity::Common, 3));
    assert_eq!(inv.flat, ids(&["a"]));
    assert!(inv.rarity_bucket(CardRarity::Common).is_empty());
    assert_eq!(inv.by_collection.get(&3), None);
}

#[test]
fn remove_takes_out_of_all_three_indexes() {
    let mut inv = Inventory::new();
    inv.add("a".to_string(), CardRarity::Rare, 1);
    inv.add("b".to_string(), CardRarity::Rare, 1);
    inv.add("c".to_string(), CardRarity::Common, 2);
    assert!(!inv.remove(&"b".to_string(), CardRarity::Common, 1));
    assert!(!inv.remove(&"b".to_string(), CardRarity::Rare, 2));
    assert!(!inv.remove(&"z".to_string(), CardRarity::Rare, 1));
    assert_eq!(inv.flat.len(), 3);
    assert!(inv.remove(&"b".to_string(), CardRarity::Rare, 1));
    assert_eq!(inv.flat, ids(&["a", "c"]));
    assert_eq!(inv.rarity_bucket(CardRarity::Rare), &ids(&["a"]));
    assert_eq!(inv.by_collection.get(&1), Some(&ids(&["a"])));
    check_indexes_agree(&inv);
}

#[test]
fn indexes_agree_after_mixed_operations() {
    let mut inv = Inventory::new();
    for i in 0..40u32 {
        let r = RARITIES[(i % 4) as usize];
        inv.add(format!("zm-{}", i), r, i % 3 + 1);
        if i % 5 == 4 {
            let k = i - 2;
            inv.remove(&format!("zm-{}", k), RARITIES[(k % 4) as usize], k % 3 + 1);
        }
        check_indexes_agree(&inv);
    }
    assert_eq!(inv.flat.len(), 32);
}

#[test]
fn filters_pick_buckets_and_their_intersection() {
    let mut inv = Inventory::new();
    inv.add("a".to_string(), CardRarity::Rare, 1);
    inv.add("b".to_string(), CardRarity::Common, 1);
    inv.add("c".to_string(), CardRarity::Rare, 2);
    inv.add("d".to_string(), CardRarity::Rare, 1);
    assert_eq!(inv.stone_ids(None, None), ids(&["a", "b", "c", "d"]));
    assert_eq!(inv.stone_ids(Some(CardRarity::Rare), None), ids(&["a", "c", "d"]));
    assert_eq!(inv.stone_ids(None, Some(1)), ids(&["a", "b", "d"]));
    assert_eq!(inv.stone_ids(Some(CardRarity::Rare), Some(1)), ids(&["a", "d"]));
    assert_eq!(inv.stone_ids(Some(CardRarity::Legendary), Some(1)), ids(&[]));
    assert_eq!(inv.stone_ids(None, Some(9)), ids(&[]));
}

#[test]
fn pages_are_newest_first() {
    let list = ids(&["1", "2", "3", "4", "5"]);
    assert_eq!(paginate(&list, 1, 2), (5, ids(&["5", "4"])));
    assert_eq!(paginate(&list, 2, 2), (5, ids(&["3", "2"])));
    assert_eq!(paginate(&list, 3, 2), (5, ids(&["1"])));
    assert_eq!(paginate(&list, 4, 2), (5, ids(&[])));
    assert_eq!(paginate(&list, 1, 40), (5, ids(&["5", "4", "3", "2", "1"])));
    assert_eq!(paginate(&list, u64::MAX, u64::MAX), (5, ids(&[])));
    assert_eq!(paginate(&ids(&[]), 1, 10), (0, ids(&[])));
}

#[test]
fn all_pages_give_back_the_reversed_list() {
    let list: Vec<String> = (0..23).map(|i| format!("zm-{}", i)).collect();
    let mut reversed = list.clone();
    reversed.reverse();
    for size in 1u64..=25 {
        let mut all: Vec<String> = vec![];
        let pages = (23 + size - 1) / size;
        for p in 1..=pages {
            let (count, page) = paginate(&list, p, size);
            assert_eq!(count, 23);
            all.extend(page);
        }
        assert_eq!(all, reversed);
    }
}
