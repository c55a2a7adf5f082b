use nft_market::error::Error;
use nft_market::market::{payout_checks, Contract, Sale, Settlement};

fn s(x: &str) -> String {
    x.to_string()
}

fn market() -> Contract {
    let mut m = Contract::new();
    m.list_sale(Sale {
        owner_id: s("seller"),
        approval_id: 3,
        nft_contract_id: s("nft.near"),
        token_id: s("t1"),
        sale_conditions: 1000,
    });
    m
}

fn price_of(m: &Contract) -> Option<u128> {
    m.get_sale(&s("nft.near"), &s("t1")).map(|x| x.sale_conditions)
}

#[test]
fn insufficient_offer_keeps_sale() {
    let mut m = market();
    let r = m.offer(s("nft.near"), s("t1"), 500, s("buyer"));
    assert!(matches!(r, Err(Error::InsufficientOffer)));
    assert_eq!(price_of(&m), Some(1000));
    let sale = m.get_sale(&s("nft.near"), &s("t1")).unwrap();
    assert_eq!(sale.owner_id, s("seller"));
    assert_eq!(sale.approval_id, 3);
}

#[test]
fn remove_sale_by_stranger_is_refused() {
    let mut m = market();
    let r = m.remove_sale(s("nft.near"), s("t1"), &s("stranger"), 1);
    assert!(matches!(r, Err(Error::Unauthorized)));
    assert_eq!(price_of(&m), Some(1000));
}

#[test]
fn remove_sale_by_seller() {
    let mut m = market();
    assert!(matches!(m.remove_sale(s("nft.near"), s("t1"), &s("seller"), 0), Err(Error::RequiresOneUnit)));
    let sale = m.remove_sale(s("nft.near"), s("t1"), &s("seller"), 1).unwrap();
    assert_eq!(sale.token_id, s("t1"));
    assert_eq!(price_of(&m), None);
    assert!(matches!(m.offer(s("nft.near"), s("t1"), 1000, s("buyer")), Err(Error::SaleNotFound)));
    assert!(matches!(m.remove_sale(s("nft.near"), s("t1"), &s("seller"), 1), Err(Error::SaleNotFound)));
}

#[test]
fn purchased_sale_cannot_be_bought_again() {
    let mut m = market();
    let req = m.offer(s("nft.near"), s("t1"), 1500, s("buyer")).unwrap();
    assert_eq!(req.nft_contract_id, s("nft.near"));
    assert_eq!(req.token_id, s("t1"));
    assert_eq!(req.receiver_id, s("buyer"));
    assert_eq!(req.approval_id, 3);
    assert_eq!(req.balance, 1000);
    assert_eq!(req.max_len_payout, 10);
    assert_eq!(req.memo, s("payout from market"));
    assert_eq!(req.attached_deposit, 1);
    assert_eq!(price_of(&m), None);
    assert!(matches!(m.offer(s("nft.near"), s("t1"), 1500, s("other")), Err(Error::SaleNotFound)));
}

#[test]
fn offer_errors() {
    let mut m = market();
    assert!(matches!(m.offer(s("nft.near"), s("t1"), 0, s("buyer")), Err(Error::ZeroOffer)));
    assert!(matches!(m.offer(s("nft.near"), s("t1"), 1000, s("seller")), Err(Error::SelfPurchase)));
    assert!(matches!(m.offer(s("nft.near"), s("zz"), 1000, s("buyer")), Err(Error::SaleNotFound)));
    assert!(matches!(m.process_purchase(s("x"), s("y"), 1, s("buyer")), Err(Error::SaleNotFound)));
    assert_eq!(price_of(&m), Some(1000));
}

#[test]
fn update_price_by_seller_only() {
    let mut m = market();
    assert_eq!(m.update_price(s("nft.near"), s("t1"), 7, &s("x"), 1), Err(Error::Unauthorized));
    assert_eq!(m.update_price(s("nft.near"), s("t1"), 7, &s("seller"), 2), Err(Error::RequiresOneUnit));
    assert_eq!(m.update_price(s("nft.near"), s("t2"), 7, &s("seller"), 1), Err(Error::SaleNotFound));
    assert_eq!(m.update_price(s("nft.near"), s("t1"), 7, &s("seller"), 1), Ok(()));
    assert_eq!(price_of(&m), Some(7));
}

fn resolve(payout: Option<Vec<(String, u128)>>) -> (Settlement, u128) {
    market().resolve_purchase(s("buyer"), 1000, payout)
}

fn is_refund(s: &Settlement) -> bool {
    matches!(s, Settlement::Refund { buyer_id, amount } if buyer_id == "buyer" && *amount == 1000)
}

#[test]
fn valid_payout_is_distributed() {
    let p = vec![(s("bob"), 200u128), (s("alice"), 800u128)];
    let (st, price) = resolve(Some(p.clone()));
    assert_eq!(price, 1000);
    match st {
        Settlement::Distribute(v) => assert_eq!(v, p),
        _ => panic!("expected a distribution"),
    }
    // One unit short is within the rounding slack.
    let (st, _) = resolve(Some(vec![(s("a"), 999)]));
    assert!(matches!(st, Settlement::Distribute(_)));
}

#[test]
fn bad_payout_refunds_buyer() {
    let (st, price) = resolve(None);
    assert_eq!(price, 1000);
    assert!(is_refund(&st));
    assert!(is_refund(&resolve(Some(vec![])).0));
    assert!(is_refund(&resolve(Some(vec![(s("a"), 998)])).0));
    assert!(is_refund(&resolve(Some(vec![(s("a"), 1001)])).0));
    assert!(is_refund(&resolve(Some(vec![(s("a"), u128::MAX), (s("b"), 5)])).0));
    let eleven: Vec<(String, u128)> = (0..11).map(|i| (format!("a{}", i), if i == 0 { 1000 } else { 0 })).collect();
    assert!(is_refund(&resolve(Some(eleven)).0));
}

#[test]
fn payout_checks_bounds() {
    let ten: Vec<(String, u128)> = (0..10).map(|i| (format!("a{}", i), 100)).collect();
    assert!(payout_checks(&ten, 1000));
    assert!(payout_checks(&ten, 1001));
    assert!(!payout_checks(&ten, 1002));
    assert!(!payout_checks(&ten, 999));
}
