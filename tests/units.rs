use zommine::contract::Contract;
use zommine::ft::FT_STORAGE_DEPOSIT;
use zommine::mine::{LARGE_MINE_PRICE, MEDIUM_MINE_PRICE, SMALL_MINE_PRICE};
use zommine::units::{to_tera, to_yocto};

#[test]
fn yocto_of_decimal_near() {
    assert_eq!(to_yocto("1"), Some(1_000_000_000_000_000_000_000_000));
    assert_eq!(to_yocto("0.01"), Some(SMALL_MINE_PRICE));
    assert_eq!(to_yocto("5"), Some(MEDIUM_MINE_PRICE));
    assert_eq!(to_yocto("9"), Some(LARGE_MINE_PRICE));
    assert_eq!(to_yocto("0.001"), Some(FT_STORAGE_DEPOSIT));
    assert_eq!(to_yocto("0.03"), Some(Contract::claim_deposit(4)));
    assert_eq!(to_yocto("0.06"), Some(Contract::claim_deposit(8)));
    assert_eq!(to_yocto("1.5"), Some(1_500_000_000_000_000_000_000_000));
    assert_eq!(to_yocto("0.000000000000000000000001"), Some(1));
}

#[test]
fn yocto_fraction_ends_at_the_next_dot() {
    assert_eq!(to_yocto("1.2.3"), Some(1_200_000_000_000_000_000_000_000));
}

#[test]
fn yocto_refuses_what_is_not_an_amount() {
    assert_eq!(to_yocto(""), None);
    assert_eq!(to_yocto("abc"), None);
    assert_eq!(to_yocto(".5"), None);
    assert_eq!(to_yocto("1."), None);
    assert_eq!(to_yocto("0.0000000000000000000000001"), None);
    assert_eq!(to_yocto("340282366920938463463375"), None);
}

#[test]
fn tera_gas() {
    assert_eq!(to_tera(0), 0);
    assert_eq!(to_tera(25), 25_000_000_000_000);
}
