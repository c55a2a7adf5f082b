use vstd::prelude::*;
use crate::error::Error;
use crate::events::EventLog;
use crate::internal::{
    assert_one_yocto, cap_u64, check_transfer, is_transfer_log, refund_approved_account_ids, released_bytes,
    transfer_error, transferred,
};
use crate::nft::{Contract, add_owned, remove_owned};
use crate::payout::{compute_payout, lemma_others_within_total, payout_entries};
use crate::strmap::StrMap;

verus! {

/// What each account is to receive of a sale.
pub struct Payout {
    pub payout: StrMap<u128>,
}

/// What a transfer with payout hands back to its caller.
pub struct TransferPayout {
    /// The split of the sale amount.
    pub payout: Payout,
    /// Who owned the token before.
    pub previous_owner_id: String,
    /// Bytes of storage freed by the approvals that lapsed, to refund to the previous owner.
    pub released_bytes: u64,
    /// The transfer event to log.
    pub log: EventLog,
}

/// Why a transfer with payout is refused, if it is.
pub open spec fn transfer_payout_error(
    c: Contract,
    token_id: Seq<char>,
    receiver: Seq<char>,
    approval_id: u64,
    max_len_payout: u32,
    predecessor: Seq<char>,
    attached_deposit: u128,
) -> Option<Error> {
    if attached_deposit != 1 {
        Some(Error::RequiresOneUnit)
    } else if !c.tokens().contains_key(token_id) {
        Some(Error::TokenNotFound)
    } else if transfer_error(c.tokens()[token_id], predecessor, receiver, Some(approval_id)) is Some {
        transfer_error(c.tokens()[token_id], predecessor, receiver, Some(approval_id))
    } else if c.tokens()[token_id].royalty.len() > max_len_payout {
        Some(Error::TooManyRecipients)
    } else {
        None
    }
}

/// Quoting and settling the split of a sale among a token's beneficiaries.
pub trait NonFungibleTokenCore {
    spec fn payout_wf(&self) -> bool;

    /// The split of `balance` for the token as it stands, without moving it.
    fn nft_payout(&self, token_id: String, balance: u128, max_len_payout: u32) -> (r: Result<Payout, Error>)
        requires
            self.payout_wf(),
    ;

    /// Moves the token to `receiver_id` on behalf of the caller, who must be
    /// the owner or approved under `approval_id`, and returns the split of
    /// `balance` by the royalty and the previous owner.
    fn nft_transfer_payout(
        &mut self,
        receiver_id: String,
        token_id: String,
        approval_id: u64,
        memo: Option<String>,
        balance: u128,
        max_len_payout: u32,
        predecessor_id: &String,
        attached_deposit: u128,
    ) -> (r: Result<TransferPayout, Error>)
        requires
            old(self).payout_wf(),
        ensures
            final(self).payout_wf(),
    ;
}

impl NonFungibleTokenCore for Contract {
    open spec fn payout_wf(&self) -> bool {
        self.wf()
    }

    fn nft_payout(&self, token_id: String, balance: u128, max_len_payout: u32) -> (r: Result<Payout, Error>)
        ensures
            !self.tokens().contains_key(token_id@) ==> r == Err::<Payout, Error>(Error::TokenNotFound),
            self.tokens().contains_key(token_id@) ==> {
                let t = self.tokens_by_id@[token_id@];
                if t.royalty.entries@.len() > max_len_payout {
                    r == Err::<Payout, Error>(Error::TooManyRecipients)
                } else {
                    r is Ok && r->Ok_0.payout.wf() && r->Ok_0.payout.entries@ == payout_entries(
                        t.royalty.entries@,
                        t.owner_id,
                        balance,
                    )
                }
            },
    {
        let token = match self.tokens_by_id.get(&token_id) {
            Some(t) => t,
            None => {
                return Err(Error::TokenNotFound);
            },
        };
        proof {
            lemma_others_within_total(token.royalty.entries@, token.owner_id@);
        }
        match compute_payout(&token.royalty, &token.owner_id, balance, max_len_payout) {
            Ok(payout) => Ok(Payout { payout }),
            Err(e) => Err(e),
        }
    }

    fn nft_transfer_payout(
        &mut self,
        receiver_id: String,
        token_id: String,
        approval_id: u64,
        memo: Option<String>,
        balance: u128,
        max_len_payout: u32,
        predecessor_id: &String,
        attached_deposit: u128,
    ) -> (r: Result<TransferPayout, Error>)
        ensures
            match transfer_payout_error(
                *old(self),
                token_id@,
                receiver_id@,
                approval_id,
                max_len_payout,
                predecessor_id@,
                attached_deposit,
            ) {
                Some(e) => r == Err::<TransferPayout, Error>(e) && *final(self) == *old(self),
                None => {
                    let prev = old(self).tokens_by_id@[token_id@];
                    &&& r is Ok
                    &&& final(self).tokens() == old(self).tokens().insert(token_id@, transferred(prev@, receiver_id@))
                    &&& final(self).owned() == add_owned(
                        remove_owned(old(self).owned(), prev.owner_id@, token_id@),
                        receiver_id@,
                        token_id@,
                    )
                    &&& r->Ok_0.payout.payout.wf()
                    &&& r->Ok_0.payout.payout.entries@ == payout_entries(prev.royalty.entries@, prev.owner_id, balance)
                    &&& r->Ok_0.previous_owner_id == prev.owner_id
                    &&& r->Ok_0.released_bytes == cap_u64(released_bytes(prev.approved_account_ids.key_seq()))
                    &&& is_transfer_log(
                        r->Ok_0.log,
                        Some(predecessor_id@),
                        prev.owner_id@,
                        receiver_id@,
                        token_id@,
                        memo,
                    )
                },
            },
    {
        assert_one_yocto(attached_deposit)?;
        let token = match self.tokens_by_id.get(&token_id) {
            Some(t) => t,
            None => {
                return Err(Error::TokenNotFound);
            },
        };
        match check_transfer(token, predecessor_id, &receiver_id, Some(approval_id)) {
            Some(e) => {
                return Err(e);
            },
            None => {},
        }
        if token.royalty.entries.len() > max_len_payout as usize {
            return Err(Error::TooManyRecipients);
        }
        let (previous, log) = match self.internal_transfer(
            predecessor_id,
            &receiver_id,
            &token_id,
            Some(approval_id),
            memo,
        ) {
            Ok(moved) => moved,
            Err(e) => {
                return Err(e);
            },
        };
        let released = refund_approved_account_ids(&previous.approved_account_ids);
        proof {
            lemma_others_within_total(previous.royalty.entries@, previous.owner_id@);
        }
        let payout = match compute_payout(&previous.royalty, &previous.owner_id, balance, max_len_payout) {
            Ok(p) => p,
            Err(e) => {
                return Err(e);
            },
        };
        Ok(TransferPayout {
            payout: Payout { payout },
            previous_owner_id: previous.owner_id,
            released_bytes: released,
            log,
        })
    }
}

} // verus!
