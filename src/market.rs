use vstd::prelude::*;
use vstd::string::*;
use crate::error::Error;
use crate::internal::assert_one_yocto;
use crate::payout::amounts_sum;
use crate::strmap::{StrMap, keys_distinct};

verus! {

/// What joins a collection id and a token id into a sale's key.
pub const DELIMETER: &'static str = ".";

/// How many accounts a payout that the market settles may list.
pub const MAX_PAYOUT_LEN: u32 = 10;

/// A token listed for sale.
pub struct Sale {
    pub owner_id: String,
    /// The approval under which the market may transfer the token.
    pub approval_id: u64,
    pub nft_contract_id: String,
    pub token_id: String,
    /// The price, in the smallest unit of currency.
    pub sale_conditions: u128,
}

/// The registry of sales, keyed by collection and token.
pub struct Contract {
    pub sales: StrMap<Sale>,
}

/// The key of the sale of `token_id` from the collection `nft_contract_id`.
pub open spec fn sale_key(nft_contract_id: Seq<char>, token_id: Seq<char>) -> Seq<char> {
    nft_contract_id + DELIMETER@ + token_id
}

pub fn sale_key_of(nft_contract_id: &String, token_id: &String) -> (r: String)
    ensures
        r@ == sale_key(nft_contract_id@, token_id@),
{
    let mut k = nft_contract_id.clone();
    k.append(DELIMETER);
    k.append(token_id.as_str());
    k
}

/// The transfer that the market asks of the ledger to settle a purchase, and
/// the purchase that the answer is then resolved for.
pub struct PurchaseRequest {
    pub nft_contract_id: String,
    /// The buyer, who receives the token and, on failure, the refund.
    pub receiver_id: String,
    pub token_id: String,
    pub approval_id: u64,
    pub memo: String,
    /// The price, which the payout is to split.
    pub balance: u128,
    pub max_len_payout: u32,
    /// What the request carries as proof of intent: one unit.
    pub attached_deposit: u128,
}

/// `req` asks for the transfer of the listed token to `buyer` at `price`.
pub open spec fn requests_purchase(req: PurchaseRequest, sale: Sale, buyer: Seq<char>, price: u128) -> bool {
    &&& req.nft_contract_id@ == sale.nft_contract_id@
    &&& req.token_id@ == sale.token_id@
    &&& req.receiver_id@ == buyer
    &&& req.approval_id == sale.approval_id
    &&& req.memo@ == "payout from market"@
    &&& req.balance == price
    &&& req.max_len_payout == MAX_PAYOUT_LEN
    &&& req.attached_deposit == 1
}

/// How a purchase ends once the ledger has answered.
pub enum Settlement {
    /// The whole price goes back to the buyer.
    Refund { buyer_id: String, amount: u128 },
    /// Each listed account receives its amount.
    Distribute(Vec<(String, u128)>),
}

/// A payout that the market trusts: one to ten accounts, summing to the price
/// or to one unit less.
pub open spec fn payout_valid(payout: Seq<(String, u128)>, price: u128) -> bool {
    &&& 1 <= payout.len() <= MAX_PAYOUT_LEN
    &&& amounts_sum(payout) <= price
    &&& price - amounts_sum(payout) <= 1
}

/// How `payout` (`None` when the ledger's answer is missing or undecodable)
/// settles a purchase by `buyer` at `price`.
pub open spec fn settlement_of(payout: Option<Seq<(String, u128)>>, buyer: Seq<char>, price: u128) -> (bool, Seq<(String, u128)>) {
    match payout {
        Some(p) => if payout_valid(p, price) { (true, p) } else { (false, Seq::empty()) },
        None => (false, Seq::empty()),
    }
}

/// What `account` receives from the listed amounts.
pub open spec fn credited_by(payout: Seq<(String, u128)>, account: Seq<char>) -> int
    decreases payout.len(),
{
    if payout.len() == 0 {
        0
    } else {
        credited_by(payout.drop_last(), account) + if payout.last().0@ == account { payout.last().1 as int } else { 0 }
    }
}

/// What `account` receives when the purchase settles as `s`.
pub open spec fn credited(s: Settlement, account: Seq<char>) -> int {
    match s {
        Settlement::Refund { buyer_id, amount } => if buyer_id@ == account { amount as int } else { 0 },
        Settlement::Distribute(v) => credited_by(v@, account),
    }
}

/// Why an offer fails, if it does.
pub open spec fn offer_error(sales: Map<Seq<char>, Sale>, key: Seq<char>, attached_deposit: u128, buyer: Seq<char>) -> Option<
    Error,
> {
    if attached_deposit == 0 {
        Some(Error::ZeroOffer)
    } else if !sales.contains_key(key) {
        Some(Error::SaleNotFound)
    } else if sales[key].owner_id@ == buyer {
        Some(Error::SelfPurchase)
    } else if attached_deposit < sales[key].sale_conditions {
        Some(Error::InsufficientOffer)
    } else {
        None
    }
}

/// Why the seller's call on a listing fails, if it does.
pub open spec fn seller_call_error(sales: Map<Seq<char>, Sale>, key: Seq<char>, predecessor: Seq<char>, attached_deposit: u128) -> Option<
    Error,
> {
    if attached_deposit != 1 {
        Some(Error::RequiresOneUnit)
    } else if !sales.contains_key(key) {
        Some(Error::SaleNotFound)
    } else if sales[key].owner_id@ != predecessor {
        Some(Error::Unauthorized)
    } else {
        None
    }
}

proof fn lemma_sum_prefix(p: Seq<(String, u128)>, i: int)
    requires
        0 <= i <= p.len(),
    ensures
        0 <= amounts_sum(p.take(i)) <= amounts_sum(p),
    decreases p.len(),
{
    if i < p.len() {
        assert(p.drop_last().take(i) == p.take(i));
        lemma_sum_prefix(p.drop_last(), i);
    } else {
        assert(p.take(i) == p);
        lemma_sum_nonneg(p);
    }
}

proof fn lemma_sum_nonneg(p: Seq<(String, u128)>)
    ensures
        0 <= amounts_sum(p),
    decreases p.len(),
{
    if p.len() > 0 {
        lemma_sum_nonneg(p.drop_last());
    }
}

proof fn lemma_credited_absent(p: Seq<(String, u128)>, account: Seq<char>)
    requires
        forall|i: int| 0 <= i < p.len() ==> p[i].0@ != account,
    ensures
        credited_by(p, account) == 0,
    decreases p.len(),
{
    if p.len() > 0 {
        lemma_credited_absent(p.drop_last(), account);
    }
}

/// In a payout with distinct accounts, each listed account is credited exactly
/// its amount.
pub proof fn lemma_credited_exact(p: Seq<(String, u128)>, i: int)
    requires
        keys_distinct(p),
        0 <= i < p.len(),
    ensures
        credited_by(p, p[i].0@) == p[i].1,
    decreases p.len(),
{
    let n = p.len() - 1;
    let q = p.drop_last();
    if i == n {
        assert forall|j: int| 0 <= j < q.len() implies q[j].0@ != p[i].0@ by {
            assert(q[j] == p[j]);
        }
        lemma_credited_absent(q, p[i].0@);
    } else {
        assert(keys_distinct(q));
        assert(q[i] == p[i]);
        lemma_credited_exact(q, i);
    }
}

/// When the ledger's answer cannot be trusted (missing, undecodable, empty,
/// over ten accounts, or off the price by two units or more) the buyer gets
/// back the whole price and nobody else receives anything.
pub proof fn lemma_refund_on_bad_payout(s: Settlement, payout: Option<Seq<(String, u128)>>, buyer: Seq<char>, price: u128, other: Seq<char>)
    requires
        !settlement_of(payout, buyer, price).0,
        s matches Settlement::Refund { buyer_id, amount } && buyer_id@ == buyer && amount == price,
        other != buyer,
    ensures
        credited(s, buyer) == price,
        credited(s, other) == 0,
{
}

/// When the ledger's answer is trusted, each listed account receives exactly
/// its amount, and the buyer gets no refund: it receives only what the payout
/// lists for it, if anything.
pub proof fn lemma_distribute_on_good_payout(s: Settlement, p: Seq<(String, u128)>, buyer: Seq<char>, price: u128, i: int)
    requires
        keys_distinct(p),
        0 <= i < p.len(),
        settlement_of(Some(p), buyer, price).0,
        s matches Settlement::Distribute(v) && v@ == p,
    ensures
        credited(s, p[i].0@) == p[i].1,
        (forall|j: int| 0 <= j < p.len() ==> p[j].0@ != buyer) ==> credited(s, buyer) == 0,
{
    lemma_credited_exact(p, i);
    if forall|j: int| 0 <= j < p.len() ==> p[j].0@ != buyer {
        lemma_credited_absent(p, buyer);
    }
}

/// A sale that has been bought or taken down is gone: every later offer for it
/// fails, with `SaleNotFound` whenever it carries a deposit.
pub proof fn lemma_sale_gone(before: Contract, after: Contract, key: Seq<char>, attached_deposit: u128, buyer: Seq<char>)
    requires
        after.sales@ == before.sales@.remove(key),
    ensures
        offer_error(after.sales@, key, attached_deposit, buyer) is Some,
        attached_deposit > 0 ==> offer_error(after.sales@, key, attached_deposit, buyer) == Some(Error::SaleNotFound),
{
}

impl Contract {
    pub open spec fn wf(&self) -> bool {
        self.sales.wf()
    }

    /// An empty registry.
    pub fn new() -> (r: Self)
        ensures
            r.wf(),
            r.sales@ == Map::<Seq<char>, Sale>::empty(),
    {
        Contract { sales: StrMap::new() }
    }

    /// Lists `sale` under its collection and token, replacing any listing there.
    pub fn list_sale(&mut self, sale: Sale)
        requires
            old(self).wf(),
        ensures
            final(self).wf(),
            final(self).sales@ == old(self).sales@.insert(sale_key(sale.nft_contract_id@, sale.token_id@), sale),
    {
        let key = sale_key_of(&sale.nft_contract_id, &sale.token_id);
        self.sales.insert(key, sale);
    }

    /// The sale of the given token, if it is listed.
    pub fn get_sale(&self, nft_contract_id: &String, token_id: &String) -> (r: Option<&Sale>)
        requires
            self.wf(),
        ensures
            match r {
                Some(s) => self.sales@.contains_key(sale_key(nft_contract_id@, token_id@)) && *s == self.sales@[sale_key(
                    nft_contract_id@,
                    token_id@,
                )],
                None => !self.sales@.contains_key(sale_key(nft_contract_id@, token_id@)),
            },
    {
        let key = sale_key_of(nft_contract_id, token_id);
        self.sales.get(&key)
    }

    /// Takes the sale of the given token off the registry.
    pub fn internal_remove_sale(&mut self, nft_contract_id: &String, token_id: &String) -> (r: Option<Sale>)
        requires
            old(self).wf(),
        ensures
            final(self).wf(),
            final(self).sales@ == old(self).sales@.remove(sale_key(nft_contract_id@, token_id@)),
            match r {
                Some(s) => old(self).sales@.contains_key(sale_key(nft_contract_id@, token_id@)) && s == old(
                    self,
                ).sales@[sale_key(nft_contract_id@, token_id@)],
                None => !old(self).sales@.contains_key(sale_key(nft_contract_id@, token_id@)),
            },
    {
        let key = sale_key_of(nft_contract_id, token_id);
        self.sales.remove(&key)
    }

    /// Takes a sale down at its seller's request, and hands it back.
    pub fn remove_sale(
        &mut self,
        nft_contract_id: String,
        token_id: String,
        predecessor_id: &String,
        attached_deposit: u128,
    ) -> (r: Result<Sale, Error>)
        requires
            old(self).wf(),
        ensures
            final(self).wf(),
            ({
                let key = sale_key(nft_contract_id@, token_id@);
                match seller_call_error(old(self).sales@, key, predecessor_id@, attached_deposit) {
                    Some(e) => r == Err::<Sale, Error>(e) && *final(self) == *old(self),
                    None => r == Ok::<Sale, Error>(old(self).sales@[key]) && final(self).sales@ == old(
                        self,
                    ).sales@.remove(key),
                }
            }),
    {
        assert_one_yocto(attached_deposit)?;
        match self.get_sale(&nft_contract_id, &token_id) {
            Some(sale) => {
                if sale.owner_id != *predecessor_id {
                    return Err(Error::Unauthorized);
                }
            },
            None => {
                return Err(Error::SaleNotFound);
            },
        }
        match self.internal_remove_sale(&nft_contract_id, &token_id) {
            Some(sale) => Ok(sale),
            None => Err(Error::SaleNotFound),
        }
    }

    /// Sets a new price on a sale at its seller's request.
    pub fn update_price(
        &mut self,
        nft_contract_id: String,
        token_id: String,
        price: u128,
        predecessor_id: &String,
        attached_deposit: u128,
    ) -> (r: Result<(), Error>)
        requires
            old(self).wf(),
        ensures
            final(self).wf(),
            ({
                let key = sale_key(nft_contract_id@, token_id@);
                match seller_call_error(old(self).sales@, key, predecessor_id@, attached_deposit) {
                    Some(e) => r == Err::<(), Error>(e) && *final(self) == *old(self),
                    None => r is Ok && final(self).sales@ == old(self).sales@.insert(
                        key,
                        Sale { sale_conditions: price, ..old(self).sales@[key] },
                    ),
                }
            }),
    {
        assert_one_yocto(attached_deposit)?;
        let key = sale_key_of(&nft_contract_id, &token_id);
        match self.sales.get(&key) {
            Some(sale) => {
                if sale.owner_id != *predecessor_id {
                    return Err(Error::Unauthorized);
                }
            },
            None => {
                return Err(Error::SaleNotFound);
            },
        }
        let mut sale = self.sales.remove(&key).unwrap();
        sale.sale_conditions = price;
        self.sales.insert(key, sale);
        proof {
            assert(final(self).sales@ =~= old(self).sales@.insert(
                sale_key(nft_contract_id@, token_id@),
                Sale { sale_conditions: price, ..old(self).sales@[sale_key(nft_contract_id@, token_id@)] },
            ));
        }
        Ok(())
    }

    /// An offer by `buyer_id` carrying `attached_deposit` for a listed token.
    /// When it is good, the sale leaves the registry and the transfer to
    /// request of the ledger comes back; it settles at the listed price.
    pub fn offer(&mut self, nft_contract_id: String, token_id: String, attached_deposit: u128, buyer_id: String) -> (r:
        Result<PurchaseRequest, Error>)
        requires
            old(self).wf(),
        ensures
            final(self).wf(),
            ({
                let key = sale_key(nft_contract_id@, token_id@);
                match offer_error(old(self).sales@, key, attached_deposit, buyer_id@) {
                    Some(e) => r == Err::<PurchaseRequest, Error>(e) && *final(self) == *old(self),
                    None => r is Ok && final(self).sales@ == old(self).sales@.remove(key) && requests_purchase(
                        r->Ok_0,
                        old(self).sales@[key],
                        buyer_id@,
                        old(self).sales@[key].sale_conditions,
                    ),
                }
            }),
    {
        if attached_deposit == 0 {
            return Err(Error::ZeroOffer);
        }
        let price = match self.get_sale(&nft_contract_id, &token_id) {
            Some(sale) => {
                if sale.owner_id == buyer_id {
                    return Err(Error::SelfPurchase);
                }
                if attached_deposit < sale.sale_conditions {
                    return Err(Error::InsufficientOffer);
                }
                sale.sale_conditions
            },
            None => {
                return Err(Error::SaleNotFound);
            },
        };
        self.process_purchase(nft_contract_id, token_id, price, buyer_id)
    }

    /// Takes the sale off the registry, before anything is asked of the
    /// ledger, so that it cannot be bought twice; hands back the transfer to
    /// request.
    pub fn process_purchase(&mut self, nft_contract_id: String, token_id: String, price: u128, buyer_id: String) -> (r:
        Result<PurchaseRequest, Error>)
        requires
            old(self).wf(),
        ensures
            final(self).wf(),
            ({
                let key = sale_key(nft_contract_id@, token_id@);
                &&& final(self).sales@ == old(self).sales@.remove(key)
                &&& !old(self).sales@.contains_key(key) ==> r == Err::<PurchaseRequest, Error>(Error::SaleNotFound)
                &&& old(self).sales@.contains_key(key) ==> r is Ok && requests_purchase(
                    r->Ok_0,
                    old(self).sales@[key],
                    buyer_id@,
                    price,
                )
            }),
    {
        let sale = match self.internal_remove_sale(&nft_contract_id, &token_id) {
            Some(s) => s,
            None => {
                return Err(Error::SaleNotFound);
            },
        };
        Ok(PurchaseRequest {
            nft_contract_id: sale.nft_contract_id.clone(),
            receiver_id: buyer_id,
            token_id: sale.token_id.clone(),
            approval_id: sale.approval_id,
            memo: String::from_str("payout from market"),
            balance: price,
            max_len_payout: MAX_PAYOUT_LEN,
            attached_deposit: 1,
        })
    }

    /// Settles a purchase once the ledger has answered with `payout` (`None`
    /// when the call failed, gave nothing, or gave what does not decode). A
    /// trusted payout is distributed as it stands; anything else refunds the
    /// whole price to the buyer. Either way the price is what was settled.
    pub fn resolve_purchase(&self, buyer_id: String, price: u128, payout: Option<Vec<(String, u128)>>) -> (r: (
        Settlement,
        u128,
    ))
        ensures
            r.1 == price,
            ({
                let p = match payout {
                    Some(v) => Some(v@),
                    None => None,
                };
                if settlement_of(p, buyer_id@, price).0 {
                    r.0 matches Settlement::Distribute(v) && v@ == settlement_of(p, buyer_id@, price).1
                } else {
                    r.0 matches Settlement::Refund { buyer_id: b, amount } && b@ == buyer_id@ && amount == price
                }
            }),
    {
        match payout {
            Some(p) => {
                if payout_checks(&p, price) {
                    return (Settlement::Distribute(p), price);
                }
            },
            None => {},
        }
        (Settlement::Refund { buyer_id, amount: price }, price)
    }
}

/// Whether the market can trust `payout` for a sale at `price`.
pub fn payout_checks(payout: &Vec<(String, u128)>, price: u128) -> (r: bool)
    ensures
        r == payout_valid(payout@, price),
{
    if payout.len() > MAX_PAYOUT_LEN as usize || payout.len() == 0 {
        return false;
    }
    let mut remainder: u128 = price;
    let mut i: usize = 0;
    while i < payout.len()
        invariant
            i <= payout@.len(),
            remainder == price - amounts_sum(payout@.take(i as int)),
        decreases payout@.len() - i,
    {
        proof {
            assert(payout@.take(i as int + 1).drop_last() == payout@.take(i as int));
        }
        let value = payout[i].1;
        if value > remainder {
            proof {
                lemma_sum_prefix(payout@, i as int + 1);
            }
            return false;
        }
        remainder = remainder - value;
        i = i + 1;
    }
    proof {
        assert(payout@.take(i as int) == payout@);
    }
    remainder == 0 || remainder == 1
}

} // verus!
