use vstd::prelude::*;
use crate::nft::{Contract, TokenView};
use crate::strmap::StrMap;

verus! {

/// A token as queries show it.
pub struct JsonToken {
    pub token_id: String,
    pub owner_id: String,
    pub approved_account_ids: StrMap<u64>,
    pub royalty: StrMap<u32>,
}

/// `j` shows the token `t` under the id `token_id`.
pub open spec fn shows(j: JsonToken, token_id: Seq<char>, t: TokenView) -> bool {
    &&& j.token_id@ == token_id
    &&& j.owner_id@ == t.owner_id
    &&& j.approved_account_ids.wf()
    &&& j.approved_account_ids@ == t.approvals
    &&& j.royalty.entries@ == t.royalty
}

/// The first position of a page of `n` items.
pub open spec fn page_start(n: int, from_index: Option<u128>) -> int {
    let start = match from_index {
        Some(s) => s as int,
        None => 0,
    };
    if start < n { start } else { n }
}

/// The position after the last of a page of `n` items (50 items when no limit is given).
pub open spec fn page_end(n: int, from_index: Option<u128>, limit: Option<u64>) -> int {
    let lim = match limit {
        Some(l) => l as int,
        None => 50,
    };
    if page_start(n, from_index) + lim < n { page_start(n, from_index) + lim } else { n }
}

fn page(n: usize, from_index: Option<u128>, limit: Option<u64>) -> (r: (usize, usize))
    ensures
        r.0 == page_start(n as int, from_index),
        r.1 == page_end(n as int, from_index, limit),
{
    let start: u128 = match from_index {
        Some(s) => s,
        None => 0,
    };
    let lim: u64 = match limit {
        Some(l) => l,
        None => 50,
    };
    let lo: usize = if start < n as u128 { start as usize } else { n };
    let hi: usize = if (lim as u128) < (n - lo) as u128 { lo + lim as usize } else { n };
    (lo, hi)
}

impl Contract {
    /// The token with the given id, as queries show it.
    pub fn nft_token(&self, token_id: &String) -> (r: Option<JsonToken>)
        requires
            self.wf(),
        ensures
            !self.tokens().contains_key(token_id@) ==> r is None,
            self.tokens().contains_key(token_id@) ==> r is Some && shows(r->0, token_id@, self.tokens()[token_id@]),
    {
        match self.tokens_by_id.get(token_id) {
            Some(t) => Some(
                JsonToken {
                    token_id: token_id.clone(),
                    owner_id: t.owner_id.clone(),
                    approved_account_ids: t.approved_account_ids.duplicate(),
                    royalty: t.royalty.duplicate(),
                },
            ),
            None => None,
        }
    }

    /// How many tokens the ledger holds.
    pub fn nft_total_supply(&self) -> (r: u128)
        requires
            self.wf(),
        ensures
            r == self.tokens_by_id@.len(),
            r == self.tokens_by_id.entries@.len(),
    {
        self.tokens_by_id.len() as u128
    }

    /// A page of the ledger's tokens in storage order: from `from_index`
    /// (0 if not given), at most `limit` of them (50 if not given).
    pub fn nft_tokens(&self, from_index: Option<u128>, limit: Option<u64>) -> (r: Vec<JsonToken>)
        requires
            self.wf(),
        ensures
            ({
                let s = self.tokens_by_id.entries@;
                let lo = page_start(s.len() as int, from_index);
                let hi = page_end(s.len() as int, from_index, limit);
                &&& r@.len() == hi - lo
                &&& forall|i: int| 0 <= i < r@.len() ==> #[trigger] shows(r@[i], s[lo + i].0@, s[lo + i].1@)
            }),
    {
        let (lo, hi) = page(self.tokens_by_id.entries.len(), from_index, limit);
        let mut out: Vec<JsonToken> = Vec::new();
        let mut i: usize = lo;
        while i < hi
            invariant
                self.wf(),
                lo <= i <= hi,
                hi <= self.tokens_by_id.entries@.len(),
                out@.len() == i - lo,
                forall|k: int| 0 <= k < out@.len() ==> #[trigger] shows(
                    out@[k],
                    self.tokens_by_id.entries@[lo + k].0@,
                    self.tokens_by_id.entries@[lo + k].1@,
                ),
            decreases hi - i,
        {
            let ghost s = self.tokens_by_id.entries@;
            proof {
                crate::strmap::lemma_entry(s, i as int);
            }
            let j = self.nft_token(&self.tokens_by_id.entries[i].0).unwrap();
            out.push(j);
            i = i + 1;
        }
        out
    }

    /// How many tokens `account_id` holds.
    pub fn nft_supply_for_owner(&self, account_id: &String) -> (r: u128)
        requires
            self.wf(),
        ensures
            r == if self.owned().contains_key(account_id@) {
                self.owned()[account_id@].len()
            } else {
                0
            },
    {
        match self.tokens_per_owner.get(account_id) {
            Some(tokens) => {
                proof {
                    crate::strmap::lemma_len(tokens.entries@);
                }
                tokens.len() as u128
            },
            None => 0,
        }
    }

    /// A page of the tokens that `account_id` holds, in the order in which it
    /// got them: from `from_index` (0 if not given), at most `limit` of them (50
    /// if not given). Empty for an account that holds none.
    pub fn nft_tokens_for_owner(&self, account_id: &String, from_index: Option<u128>, limit: Option<u64>) -> (r: Vec<
        JsonToken,
    >)
        requires
            self.wf(),
        ensures
            !self.tokens_per_owner@.contains_key(account_id@) ==> r@.len() == 0,
            self.tokens_per_owner@.contains_key(account_id@) ==> {
                let s = self.tokens_per_owner@[account_id@].entries@;
                let lo = page_start(s.len() as int, from_index);
                let hi = page_end(s.len() as int, from_index, limit);
                &&& r@.len() == hi - lo
                &&& forall|i: int|
                    0 <= i < r@.len() ==> #[trigger] shows(r@[i], s[lo + i].0@, self.tokens()[s[lo + i].0@])
            },
    {
        let tokens = match self.tokens_per_owner.get(account_id) {
            Some(t) => t,
            None => {
                return Vec::new();
            },
        };
        let (lo, hi) = page(tokens.entries.len(), from_index, limit);
        let mut out: Vec<JsonToken> = Vec::new();
        let mut i: usize = lo;
        while i < hi
            invariant
                self.wf(),
                self.tokens_per_owner@.contains_key(account_id@),
                *tokens == self.tokens_per_owner@[account_id@],
                lo <= i <= hi,
                hi <= tokens.entries@.len(),
                out@.len() == i - lo,
                forall|k: int| 0 <= k < out@.len() ==> #[trigger] shows(
                    out@[k],
                    tokens.entries@[lo + k].0@,
                    self.tokens()[tokens.entries@[lo + k].0@],
                ),
            decreases hi - i,
        {
            let ghost s = tokens.entries@;
            proof {
                assert(tokens.wf());
                crate::strmap::lemma_entry(s, i as int);
                assert(self.owned().contains_key(account_id@));
                assert(self.owned()[account_id@].contains(s[i as int].0@));
            }
            let j = self.nft_token(&tokens.entries[i].0).unwrap();
            out.push(j);
            i = i + 1;
        }
        out
    }
}

} // verus!
