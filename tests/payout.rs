use nft_market::error::Error;
use nft_market::payout::{compute_payout, royalty_to_payout};
use nft_market::strmap::StrMap;

fn royalty(items: &[(&str, u32)]) -> StrMap<u32> {
    let mut m = StrMap::new();
    for (k, v) in items {
        m.insert(k.to_string(), *v);
    }
    m
}

fn amounts(p: &StrMap<u128>) -> Vec<(String, u128)> {
    p.entries.clone()
}

#[test]
fn payout_owner_and_beneficiary() {
    let r = royalty(&[("ownerA", 8000), ("beneficiaryB", 2000)]);
    let p = compute_payout(&r, &"ownerA".to_string(), 1000, 10).unwrap();
    assert_eq!(
        amounts(&p),
        vec![("beneficiaryB".to_string(), 200), ("ownerA".to_string(), 800)]
    );
}

#[test]
fn payout_owner_absorbs_rounding() {
    let r = royalty(&[("a", 3333), ("b", 3333), ("c", 3334)]);
    let p = compute_payout(&r, &"owner".to_string(), 10, 10).unwrap();
    assert_eq!(
        amounts(&p),
        vec![
            ("a".to_string(), 3),
            ("b".to_string(), 3),
            ("c".to_string(), 3),
            ("owner".to_string(), 0)
        ]
    );
    let total: u128 = p.entries.iter().map(|e| e.1).sum();
    assert_eq!(total, 9);
    assert!(10 - total <= (p.entries.len() as u128) - 1);
}

#[test]
fn payout_empty_royalty_goes_to_owner() {
    let r = royalty(&[]);
    let p = compute_payout(&r, &"o".to_string(), 12345, 0).unwrap();
    assert_eq!(amounts(&p), vec![("o".to_string(), 12345)]);
}

#[test]
fn payout_too_many_recipients() {
    let r = royalty(&[("a", 1), ("b", 1), ("c", 1)]);
    assert!(matches!(
        compute_payout(&r, &"o".to_string(), 100, 2),
        Err(Error::TooManyRecipients)
    ));
    assert!(compute_payout(&r, &"o".to_string(), 100, 3).is_ok());
}

#[test]
fn royalty_share_rounds_down() {
    assert_eq!(royalty_to_payout(2500, 1000), 250);
    assert_eq!(royalty_to_payout(1, 9999), 0);
    assert_eq!(royalty_to_payout(3333, 10), 3);
    assert_eq!(royalty_to_payout(0, 1000), 0);
}

#[test]
fn royalty_share_of_largest_amount() {
    assert_eq!(royalty_to_payout(10000, u128::MAX), u128::MAX);
    assert_eq!(royalty_to_payout(5000, u128::MAX), u128::MAX / 2);
}
