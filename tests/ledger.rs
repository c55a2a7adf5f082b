use nft_market::approval::NonFungibleTokenCore as Approvals;
use nft_market::error::Error;
use nft_market::internal::{
    assert_at_least_one_yocto, assert_one_yocto, bytes_for_approved_account_id, refund_approved_account_ids,
    refund_deposit,
};
use nft_market::nft::Contract;
use nft_market::royalty::NonFungibleTokenCore as Payouts;
use nft_market::strmap::StrMap;

const COST: u128 = 10;

fn s(x: &str) -> String {
    x.to_string()
}

fn ledger() -> Contract {
    let mut c = Contract::new();
    let mut r = StrMap::new();
    r.insert(s("alice"), 8000);
    r.insert(s("bob"), 2000);
    c.mint(s("t1"), s("alice"), r).unwrap();
    c.mint(s("t2"), s("alice"), StrMap::new()).unwrap();
    c.mint(s("t3"), s("carol"), StrMap::new()).unwrap();
    c
}

#[test]
fn mint_rejects_taken_id() {
    let mut c = ledger();
    assert_eq!(c.mint(s("t1"), s("dave"), StrMap::new()), Err(Error::TokenExists));
    assert_eq!(c.nft_total_supply(), 3);
}

#[test]
fn approve_then_is_approved_then_revoke() {
    let mut c = ledger();
    let a = c.nft_approve(s("t1"), s("market"), None, &s("alice"), 1000, COST).unwrap();
    assert_eq!(a.approval_id, 0);
    assert_eq!(c.nft_is_approved(s("t1"), s("market"), Some(a.approval_id)), Ok(true));
    assert_eq!(c.nft_is_approved(s("t1"), s("market"), None), Ok(true));
    assert_eq!(c.nft_is_approved(s("t1"), s("market"), Some(7)), Ok(false));
    let freed = c.nft_revoke(s("t1"), s("market"), &s("alice"), 1).unwrap();
    assert_eq!(freed, 6 + 12);
    assert_eq!(c.nft_is_approved(s("t1"), s("market"), None), Ok(false));
}

#[test]
fn approve_refunds_what_storage_does_not_take() {
    let mut c = ledger();
    // "market" takes 6 + 12 bytes at 10 each: 180 of 1000 are kept.
    let a = c.nft_approve(s("t1"), s("market"), Some(s("hi")), &s("alice"), 1000, COST).unwrap();
    assert_eq!(a.refund, 820);
    assert_eq!(a.notify_msg, Some(s("hi")));
    // A second approval of the same account takes no new storage.
    let b = c.nft_approve(s("t1"), s("market"), None, &s("alice"), 1, COST).unwrap();
    assert_eq!(b.refund, 0);
    assert_eq!(b.approval_id, 1);
}

#[test]
fn approve_errors() {
    let mut c = ledger();
    assert_eq!(
        c.nft_approve(s("t1"), s("m"), None, &s("alice"), 0, COST).err(),
        Some(Error::RequiresDeposit)
    );
    assert_eq!(
        c.nft_approve(s("nope"), s("m"), None, &s("alice"), 1000, COST).err(),
        Some(Error::TokenNotFound)
    );
    assert_eq!(
        c.nft_approve(s("t1"), s("m"), None, &s("bob"), 1000, COST).err(),
        Some(Error::Unauthorized)
    );
    assert_eq!(
        c.nft_approve(s("t1"), s("m"), None, &s("alice"), 5, COST).err(),
        Some(Error::InsufficientStorageDeposit)
    );
    assert_eq!(c.nft_is_approved(s("t1"), s("m"), None), Ok(false));
    assert_eq!(c.nft_is_approved(s("nope"), s("m"), None), Err(Error::TokenNotFound));
}

#[test]
fn approval_ids_increase_across_revoke_all() {
    let mut c = ledger();
    let a = c.nft_approve(s("t1"), s("x"), None, &s("alice"), 1000, COST).unwrap();
    let b = c.nft_approve(s("t1"), s("y"), None, &s("alice"), 1000, COST).unwrap();
    assert!(b.approval_id > a.approval_id);
    let freed = c.nft_revoke_all(s("t1"), &s("alice"), 1).unwrap();
    assert_eq!(freed, 13 + 13);
    assert_eq!(c.nft_is_approved(s("t1"), s("x"), None), Ok(false));
    let d = c.nft_approve(s("t1"), s("x"), None, &s("alice"), 1000, COST).unwrap();
    assert_eq!(d.approval_id, 2);
    assert!(d.approval_id > b.approval_id);
}

#[test]
fn revoke_needs_one_unit_and_the_owner() {
    let mut c = ledger();
    assert_eq!(c.nft_revoke(s("t1"), s("x"), &s("alice"), 2), Err(Error::RequiresOneUnit));
    assert_eq!(c.nft_revoke(s("t1"), s("x"), &s("bob"), 1), Err(Error::Unauthorized));
    assert_eq!(c.nft_revoke(s("t1"), s("x"), &s("alice"), 1), Ok(0));
    assert_eq!(c.nft_revoke_all(s("t9"), &s("alice"), 1), Err(Error::TokenNotFound));
    assert_eq!(c.nft_revoke_all(s("t1"), &s("alice"), 1), Ok(0));
}

#[test]
fn transfer_payout_by_approved_market() {
    let mut c = ledger();
    let a = c.nft_approve(s("t1"), s("market"), None, &s("alice"), 1000, COST).unwrap();
    let out = c
        .nft_transfer_payout(s("buyer"), s("t1"), a.approval_id, Some(s("m")), 1000, 10, &s("market"), 1)
        .unwrap();
    assert_eq!(
        out.payout.payout.entries,
        vec![(s("bob"), 200u128), (s("alice"), 800u128)]
    );
    assert_eq!(out.previous_owner_id, s("alice"));
    assert_eq!(out.released_bytes, 18);
    assert_eq!(
        out.log.to_string(),
        r#"EVENT_JSON:{"standard":"nep171","version":"nft-1.0.0","event":"nft_transfer","data":[{"authorized_id":"market","old_owner_id":"alice","new_owner_id":"buyer","token_ids":["t1"],"memo":"m"}]}"#
    );
    // The new owner starts with no approvals and the same counter.
    assert_eq!(c.nft_is_approved(s("t1"), s("market"), None), Ok(false));
    let j = c.nft_token(&s("t1")).unwrap();
    assert_eq!(j.owner_id, s("buyer"));
    assert_eq!(c.nft_supply_for_owner(&s("alice")), 1);
    assert_eq!(c.nft_supply_for_owner(&s("buyer")), 1);
    let n = c.nft_approve(s("t1"), s("z"), None, &s("buyer"), 1000, COST).unwrap();
    assert_eq!(n.approval_id, 1);
}

#[test]
fn transfer_payout_errors() {
    let mut c = ledger();
    let a = c.nft_approve(s("t1"), s("market"), None, &s("alice"), 1000, COST).unwrap();
    let r = |c: &mut Contract, recv: &str, id: u64, max: u32, who: &str, dep: u128| {
        c.nft_transfer_payout(s(recv), s("t1"), id, None, 1000, max, &s(who), dep).err()
    };
    assert_eq!(r(&mut c, "buyer", a.approval_id, 10, "market", 2), Some(Error::RequiresOneUnit));
    assert_eq!(r(&mut c, "buyer", a.approval_id, 10, "mallory", 1), Some(Error::Unauthorized));
    assert_eq!(r(&mut c, "buyer", a.approval_id + 1, 10, "market", 1), Some(Error::ApprovalMismatch));
    assert_eq!(r(&mut c, "alice", a.approval_id, 10, "market", 1), Some(Error::SameOwnerTransfer));
    assert_eq!(r(&mut c, "buyer", a.approval_id, 1, "market", 1), Some(Error::TooManyRecipients));
    assert_eq!(
        c.nft_transfer_payout(s("b"), s("zz"), 0, None, 1, 10, &s("market"), 1).err(),
        Some(Error::TokenNotFound)
    );
    // Nothing moved.
    assert_eq!(c.nft_token(&s("t1")).unwrap().owner_id, s("alice"));
    assert_eq!(c.nft_is_approved(s("t1"), s("market"), Some(a.approval_id)), Ok(true));
}

#[test]
fn nft_payout_quotes_without_moving() {
    let c = ledger();
    let p = c.nft_payout(s("t1"), 1000, 10).unwrap();
    assert_eq!(p.payout.entries, vec![(s("bob"), 200u128), (s("alice"), 800u128)]);
    assert_eq!(c.nft_payout(s("t1"), 1000, 1).err(), Some(Error::TooManyRecipients));
    assert_eq!(c.nft_payout(s("q"), 1000, 10).err(), Some(Error::TokenNotFound));
    assert_eq!(c.nft_token(&s("t1")).unwrap().owner_id, s("alice"));
}

#[test]
fn enumeration_pages() {
    let c = ledger();
    assert_eq!(c.nft_total_supply(), 3);
    let all: Vec<String> = c.nft_tokens(None, None).into_iter().map(|j| j.token_id).collect();
    assert_eq!(all, vec![s("t1"), s("t2"), s("t3")]);
    let page: Vec<String> = c.nft_tokens(Some(1), Some(1)).into_iter().map(|j| j.token_id).collect();
    assert_eq!(page, vec![s("t2")]);
    assert!(c.nft_tokens(Some(5), None).is_empty());
    assert_eq!(c.nft_supply_for_owner(&s("alice")), 2);
    assert_eq!(c.nft_supply_for_owner(&s("nobody")), 0);
    let mine: Vec<String> = c
        .nft_tokens_for_owner(&s("alice"), Some(1), Some(10))
        .into_iter()
        .map(|j| j.token_id)
        .collect();
    assert_eq!(mine, vec![s("t2")]);
    assert!(c.nft_tokens_for_owner(&s("nobody"), None, None).is_empty());
    let j = c.nft_token(&s("t1")).unwrap();
    assert_eq!(j.royalty.entries, vec![(s("alice"), 8000u32), (s("bob"), 2000u32)]);
}

#[test]
fn storage_and_deposit_helpers() {
    assert_eq!(bytes_for_approved_account_id(&s("bob")), 15);
    assert_eq!(bytes_for_approved_account_id(&s("")), 12);
    let mut m = StrMap::new();
    m.insert(s("ab"), 0u64);
    m.insert(s("cde"), 1u64);
    assert_eq!(refund_approved_account_ids(&m), 14 + 15);
    assert_eq!(refund_deposit(10, 1000, 10), Ok(900));
    assert_eq!(refund_deposit(10, 101, 10), Ok(0));
    assert_eq!(refund_deposit(10, 99, 10), Err(Error::InsufficientStorageDeposit));
    assert_eq!(refund_deposit(u64::MAX, u128::MAX, u128::MAX), Err(Error::InsufficientStorageDeposit));
    assert_eq!(assert_one_yocto(1), Ok(()));
    assert_eq!(assert_one_yocto(0), Err(Error::RequiresOneUnit));
    assert_eq!(assert_at_least_one_yocto(5), Ok(()));
    assert_eq!(assert_at_least_one_yocto(0), Err(Error::RequiresDeposit));
}
