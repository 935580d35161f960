use sources::address::Address;
use sources::token_pair::TokenPair;
use std::cmp::Ordering;

#[test]
fn token_pair_contains() {
    let token_a = Address::from_low_u64_be(0);
    let token_b = Address::from_low_u64_be(1);
    let token_c = Address::from_low_u64_be(2);
    let pair = TokenPair::new(token_a, token_b).unwrap();

    assert!(pair.contains(&token_a));
    assert!(pair.contains(&token_b));
    assert!(!pair.contains(&token_c));
}

#[test]
fn token_pair_other() {
    let token_a = Address::from_low_u64_be(0);
    let token_b = Address::from_low_u64_be(1);
    let token_c = Address::from_low_u64_be(2);
    let pair = TokenPair::new(token_a, token_b).unwrap();

    assert_eq!(pair.other(&token_a), Some(token_b));
    assert_eq!(pair.other(&token_b), Some(token_a));
    assert_eq!(pair.other(&token_c), None);
}

#[test]
fn token_pair_is_sorted() {
    let token_a = Address::from_low_u64_be(0);
    let token_b = Address::from_low_u64_be(1);
    let pair_0 = TokenPair::new(token_a, token_b).unwrap();
    let pair_1 = TokenPair::new(token_b, token_a).unwrap();
    assert_eq!(pair_0, pair_1);
    assert_eq!(pair_0.get(), pair_1.get());
    assert_eq!(pair_0.get().0, token_a);
}

#[test]
fn token_pair_cannot_be_equal() {
    let token = Address::from_low_u64_be(1);
    assert_eq!(TokenPair::new(token, token), None);
}

#[test]
fn token_pair_iterator() {
    let token_a = Address::from_low_u64_be(0);
    let token_b = Address::from_low_u64_be(1);
    let pair = TokenPair::new(token_a, token_b).unwrap();

    let tokens = pair.tokens();
    let mut iter = tokens.iter();
    assert_eq!(iter.next(), Some(&token_a));
    assert_eq!(iter.next(), Some(&token_b));
    assert_eq!(iter.next(), None);

    let mut iter = pair.tokens().into_iter();
    assert_eq!(iter.next(), Some(token_a));
    assert_eq!(iter.next(), Some(token_b));
    assert_eq!(iter.next(), None);
}

#[test]
fn token_pair_ordering() {
    let token_a = Address::from_low_u64_be(0);
    let token_b = Address::from_low_u64_be(1);
    let token_c = Address::from_low_u64_be(2);
    let pair_ab = TokenPair::new(token_a, token_b).unwrap();
    let pair_bc = TokenPair::new(token_b, token_c).unwrap();
    let pair_ca = TokenPair::new(token_c, token_a).unwrap();

    assert_eq!(pair_ab.cmp(&pair_bc), Ordering::Less);
    assert_eq!(pair_ab.cmp(&pair_ca), Ordering::Less);
    assert_eq!(pair_bc.cmp(&pair_ca), Ordering::Greater);
    assert_eq!(pair_ab.cmp(&TokenPair::first_ord()), Ordering::Equal);
}

#[test]
fn token_pair_same_from_either_order() {
    let high = Address { hi: 7, lo: 0 };
    let low = Address { hi: 0, lo: u128::MAX };
    let p = TokenPair::new(high, low).unwrap();
    assert_eq!(Some(p), TokenPair::new(low, high));
    assert_eq!(p.get(), (low, high));
    assert_eq!(p.other(&high), Some(low));
}

#[test]
fn address_order_follows_bytes() {
    let a = Address { hi: 1, lo: 0 };
    let b = Address { hi: 0, lo: u128::MAX };
    assert!(b.lt(&a));
    assert!(!a.lt(&b));
    assert!(!a.lt(&a));
    assert_eq!(Address::from_low_u64_be(5), Address { hi: 0, lo: 5 });
}
