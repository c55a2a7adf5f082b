use vstd::prelude::*;
use crate::error::Error;
use crate::nft::royalty_total;
use crate::strmap::{StrMap, keys_distinct, seq_has_key, seq_index_of, key_at, lemma_entry};

verus! {

/// Basis points that make up the whole of a sale amount.
pub const FULL_SHARE: u32 = 10000;

/// `bps` basis points of `amount`, rounded down.
pub open spec fn share(bps: int, amount: int) -> int {
    bps * amount / 10000
}

/// Basis points that the royalty grants to accounts other than `owner`.
pub open spec fn others_bps(royalty: Seq<(String, u32)>, owner: Seq<char>) -> int
    decreases royalty.len(),
{
    if royalty.len() == 0 {
        0
    } else {
        let e = royalty.last();
        others_bps(royalty.drop_last(), owner) + if e.0@ == owner { 0 } else { e.1 as int }
    }
}

/// What each beneficiary other than `owner` receives of `amount`, in royalty order.
pub open spec fn beneficiary_payouts(royalty: Seq<(String, u32)>, owner: Seq<char>, amount: u128) -> Seq<(String, u128)>
    decreases royalty.len(),
{
    if royalty.len() == 0 {
        Seq::empty()
    } else {
        let prev = beneficiary_payouts(royalty.drop_last(), owner, amount);
        let e = royalty.last();
        if e.0@ == owner {
            prev
        } else {
            prev.push((e.0, share(e.1 as int, amount as int) as u128))
        }
    }
}

/// The share of the owner: what the other beneficiaries leave, rounded down once.
pub open spec fn owner_payout(royalty: Seq<(String, u32)>, owner: Seq<char>, amount: u128) -> u128 {
    share(10000 - others_bps(royalty, owner), amount as int) as u128
}

/// The full payout: the beneficiaries in royalty order, then the owner.
pub open spec fn payout_entries(royalty: Seq<(String, u32)>, owner: String, amount: u128) -> Seq<(String, u128)> {
    beneficiary_payouts(royalty, owner@, amount).push((owner, owner_payout(royalty, owner@, amount)))
}

/// The sum of the amounts of a payout.
pub open spec fn amounts_sum(p: Seq<(String, u128)>) -> int
    decreases p.len(),
{
    if p.len() == 0 {
        0
    } else {
        amounts_sum(p.drop_last()) + p.last().1 as int
    }
}

proof fn lemma_floor_gap(x: int)
    requires
        x >= 0,
    ensures
        0 <= x - 10000 * (x / 10000) < 10000,
{
}

proof fn lemma_share_bounds(bps: int, amount: int)
    requires
        0 <= bps <= 10000,
        0 <= amount,
    ensures
        0 <= bps * amount - 10000 * share(bps, amount) < 10000,
        0 <= share(bps, amount) <= amount,
{
    assert(0 <= bps * amount) by (nonlinear_arith)
        requires
            0 <= bps,
            0 <= amount,
    ;
    assert(bps * amount <= 10000 * amount) by (nonlinear_arith)
        requires
            bps <= 10000,
            0 <= amount,
    ;
    lemma_floor_gap(bps * amount);
}

proof fn lemma_beneficiaries(royalty: Seq<(String, u32)>, owner: Seq<char>, amount: u128)
    requires
        keys_distinct(royalty),
        others_bps(royalty, owner) <= 10000,
    ensures
        0 <= others_bps(royalty, owner),
        0 <= others_bps(royalty, owner) * amount - 10000 * amounts_sum(beneficiary_payouts(royalty, owner, amount))
            <= 9999 * beneficiary_payouts(royalty, owner, amount).len(),
        forall|i: int| 0 <= i < beneficiary_payouts(royalty, owner, amount).len()
            ==> #[trigger] beneficiary_payouts(royalty, owner, amount)[i].0@ != owner
                && seq_has_key(royalty, beneficiary_payouts(royalty, owner, amount)[i].0@)
                && seq_index_of(royalty, beneficiary_payouts(royalty, owner, amount)[i].0@) < royalty.len(),
        keys_distinct(beneficiary_payouts(royalty, owner, amount)),
    decreases royalty.len(),
{
    if royalty.len() > 0 {
        let p = royalty.drop_last();
        let e = royalty.last();
        let n = royalty.len() - 1;
        assert(keys_distinct(p));
        lemma_beneficiaries(p, owner, amount);
        let prev = beneficiary_payouts(p, owner, amount);
        assert forall|i: int| 0 <= i < prev.len() implies seq_has_key(royalty, #[trigger] prev[i].0@)
            && seq_index_of(royalty, prev[i].0@) < n by {
            let j = seq_index_of(p, prev[i].0@);
            assert(key_at(p, j, prev[i].0@));
            assert(key_at(royalty, j, prev[i].0@));
            lemma_entry(royalty, j);
        }
        if e.0@ != owner {
            let cur = beneficiary_payouts(royalty, owner, amount);
            assert(cur == prev.push((e.0, share(e.1 as int, amount as int) as u128)));
            lemma_share_bounds(e.1 as int, amount as int);
            assert(cur.drop_last() == prev);
            assert(cur.last().1 as int == share(e.1 as int, amount as int));
            assert(amounts_sum(cur) == amounts_sum(prev) + share(e.1 as int, amount as int));
            assert((others_bps(p, owner) + e.1 as int) * amount == others_bps(p, owner) * amount + e.1 as int * amount)
                by (nonlinear_arith);
            lemma_entry(royalty, n);
            assert forall|i: int| 0 <= i < cur.len() implies #[trigger] cur[i].0@ != owner
                && seq_has_key(royalty, cur[i].0@) && seq_index_of(royalty, cur[i].0@) < royalty.len() by {
                if i < prev.len() {
                    assert(cur[i] == prev[i]);
                }
            }
            assert forall|a: int, b: int| 0 <= a < cur.len() && 0 <= b < cur.len() && a != b
                implies #[trigger] cur[a].0@ != #[trigger] cur[b].0@ by {
                if a < prev.len() && b < prev.len() {
                    assert(cur[a] == prev[a] && cur[b] == prev[b]);
                } else if a < prev.len() {
                    assert(cur[a] == prev[a]);
                    assert(seq_index_of(royalty, cur[a].0@) < n);
                } else if b < prev.len() {
                    assert(cur[b] == prev[b]);
                    assert(seq_index_of(royalty, cur[b].0@) < n);
                }
            }
        } else {
            assert forall|i: int| 0 <= i < prev.len() implies seq_index_of(royalty, #[trigger] prev[i].0@) < royalty.len() by {
            }
        }
    }
}

/// The payout never exceeds the amount, and falls short of it by less than one
/// unit for each recipient other than the owner: the rounding loss is at most
/// the number of recipients minus one.
pub proof fn lemma_payout_sum(royalty: Seq<(String, u32)>, owner: String, amount: u128)
    requires
        keys_distinct(royalty),
        others_bps(royalty, owner@) <= 10000,
    ensures
        amounts_sum(payout_entries(royalty, owner, amount)) <= amount,
        amount - (payout_entries(royalty, owner, amount).len() - 1) <= amounts_sum(payout_entries(royalty, owner, amount)),
{
    lemma_beneficiaries(royalty, owner@, amount);
    let b = others_bps(royalty, owner@);
    let prev = beneficiary_payouts(royalty, owner@, amount);
    let full = payout_entries(royalty, owner, amount);
    lemma_share_bounds(10000 - b, amount as int);
    assert(full.drop_last() == prev);
    assert(amounts_sum(full) == amounts_sum(prev) + share(10000 - b, amount as int));
    assert((10000 - b) * amount + b * amount == 10000 * amount) by (nonlinear_arith);
}

/// `royalty_percentage` basis points of `amount_to_pay`, rounded down, computed
/// without an intermediate product that could overflow.
pub fn royalty_to_payout(royalty_percentage: u32, amount_to_pay: u128) -> (r: u128)
    requires
        royalty_percentage <= 10000,
    ensures
        r == share(royalty_percentage as int, amount_to_pay as int),
        r <= amount_to_pay,
{
    let p = royalty_percentage as u128;
    let q = amount_to_pay / 10000;
    let rem = amount_to_pay % 10000;
    proof {
        let pi = p as int;
        let qi = q as int;
        let ri = rem as int;
        assert(amount_to_pay as int == 10000 * qi + ri);
        assert(pi * qi <= 10000 * qi) by (nonlinear_arith)
            requires pi <= 10000, qi >= 0;
        assert(pi * ri < 100000000) by (nonlinear_arith)
            requires pi <= 10000, 0 <= ri < 10000;
        assert(0 <= pi * ri) by (nonlinear_arith)
            requires pi >= 0, ri >= 0;
        assert(pi * (10000 * qi + ri) == 10000 * (pi * qi) + pi * ri) by (nonlinear_arith);
        assert((10000 * (pi * qi) + pi * ri) / 10000 == pi * qi + (pi * ri) / 10000) by (nonlinear_arith)
            requires pi * ri >= 0;
        lemma_share_bounds(pi, amount_to_pay as int);
    }
    p * q + (p * rem) / 10000
}

/// Splits `amount` among the royalty's beneficiaries and the owner. Each
/// beneficiary other than the owner gets its basis points of the amount, rounded
/// down; the owner gets the basis points that are left, so that it absorbs the
/// rounding. Fails when the royalty lists more than `max_len_payout` accounts.
pub fn compute_payout(royalty: &StrMap<u32>, owner_id: &String, amount: u128, max_len_payout: u32) -> (r: Result<
    StrMap<u128>,
    Error,
>)
    requires
        royalty.wf(),
        others_bps(royalty.entries@, owner_id@) <= 10000,
    ensures
        royalty.entries@.len() > max_len_payout ==> r == Err::<StrMap<u128>, Error>(Error::TooManyRecipients),
        royalty.entries@.len() <= max_len_payout ==> r is Ok && r->Ok_0.wf() && r->Ok_0.entries@ == payout_entries(royalty.entries@, *owner_id, amount),
{
    if royalty.entries.len() > max_len_payout as usize {
        return Err(Error::TooManyRecipients);
    }
    let mut out: Vec<(String, u128)> = Vec::new();
    let mut total_perpetual: u32 = 0;
    let mut i: usize = 0;
    proof {
        lemma_beneficiaries(royalty.entries@, owner_id@, amount);
    }
    while i < royalty.entries.len()
        invariant
            royalty.wf(),
            others_bps(royalty.entries@, owner_id@) <= 10000,
            i <= royalty.entries@.len(),
            total_perpetual == others_bps(royalty.entries@.take(i as int), owner_id@),
            out@ == beneficiary_payouts(royalty.entries@.take(i as int), owner_id@, amount),
        decreases royalty.entries@.len() - i,
    {
        let ghost s = royalty.entries@;
        proof {
            assert(s.take(i as int + 1).drop_last() == s.take(i as int));
            lemma_prefix_bps(s, owner_id@, i as int + 1);
        }
        let key = &royalty.entries[i].0;
        let bps = royalty.entries[i].1;
        if *key != *owner_id {
            let amt = royalty_to_payout(bps, amount);
            out.push((key.clone(), amt));
            total_perpetual = total_perpetual + bps;
        }
        i = i + 1;
    }
    proof {
        assert(royalty.entries@.take(i as int) == royalty.entries@);
    }
    let owner_amt = royalty_to_payout(FULL_SHARE - total_perpetual, amount);
    out.push((owner_id.clone(), owner_amt));
    let r = StrMap { entries: out };
    proof {
        let s = royalty.entries@;
        let prev = beneficiary_payouts(s, owner_id@, amount);
        let full = r.entries@;
        assert forall|a: int, b: int| 0 <= a < full.len() && 0 <= b < full.len() && a != b
            implies #[trigger] full[a].0@ != #[trigger] full[b].0@ by {
            if a < prev.len() && b < prev.len() {
                assert(full[a] == prev[a] && full[b] == prev[b]);
            } else if a < prev.len() {
                assert(full[a] == prev[a]);
            } else if b < prev.len() {
                assert(full[b] == prev[b]);
            }
        }
    }
    Ok(r)
}

proof fn lemma_prefix_bps(s: Seq<(String, u32)>, owner: Seq<char>, n: int)
    requires
        0 <= n <= s.len(),
    ensures
        0 <= others_bps(s.take(n), owner) <= others_bps(s, owner),
    decreases s.len(),
{
    lemma_bps_nonneg(s.take(n), owner);
    if n < s.len() {
        assert(s.drop_last().take(n) == s.take(n));
        lemma_prefix_bps(s.drop_last(), owner, n);
        lemma_bps_nonneg(s.drop_last(), owner);
    } else {
        assert(s.take(n) == s);
    }
}

/// What the other beneficiaries get never exceeds what the royalty grants in all.
pub proof fn lemma_others_within_total(s: Seq<(String, u32)>, owner: Seq<char>)
    ensures
        0 <= others_bps(s, owner) <= royalty_total(s),
    decreases s.len(),
{
    if s.len() > 0 {
        lemma_others_within_total(s.drop_last(), owner);
    }
}

proof fn lemma_bps_nonneg(s: Seq<(String, u32)>, owner: Seq<char>)
    ensures
        0 <= others_bps(s, owner),
    decreases s.len(),
{
    if s.len() > 0 {
        lemma_bps_nonneg(s.drop_last(), owner);
    }
}

} // verus!
