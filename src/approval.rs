use vstd::prelude::*;
use crate::error::Error;
use crate::internal::{
    approval_bytes, assert_at_least_one_yocto, assert_one_yocto, bytes_for_approved_account_id, cap_u64,
    deposit_refund, refund_approved_account_ids, refund_deposit, released_bytes,
};
use crate::nft::{Contract, TokenView, lemma_owner_kept};

verus! {

/// What an approval hands back to its caller.
pub struct Approval {
    /// The id under which the account is now approved.
    pub approval_id: u64,
    /// The part of the deposit that is returned to the owner.
    pub refund: u128,
    /// The message to pass on to the approved account, if the owner gave one.
    pub notify_msg: Option<String>,
}

/// The token after `account` has been approved under the next id.
pub open spec fn approved_token(t: TokenView, account: Seq<char>) -> TokenView {
    TokenView {
        approvals: t.approvals.insert(account, t.next_approval_id),
        next_approval_id: (t.next_approval_id + 1) as u64,
        ..t
    }
}

/// The token after the approval of `account` is withdrawn.
pub open spec fn revoked_token(t: TokenView, account: Seq<char>) -> TokenView {
    TokenView { approvals: t.approvals.remove(account), ..t }
}

/// The token after every approval is withdrawn.
pub open spec fn revoked_all_token(t: TokenView) -> TokenView {
    TokenView { approvals: Map::empty(), ..t }
}

/// `account` holds an approval for the token, under `approval_id` if one is named.
pub open spec fn is_approved_spec(t: TokenView, account: Seq<char>, approval_id: Option<u64>) -> bool {
    t.approvals.contains_key(account) && (approval_id is Some ==> approval_id->0 == t.approvals[account])
}

/// The outcome of an approval: the refund, or why it is refused.
pub open spec fn approve_result(
    tokens: Map<Seq<char>, TokenView>,
    token_id: Seq<char>,
    account: Seq<char>,
    predecessor: Seq<char>,
    attached_deposit: u128,
    storage_byte_cost: u128,
) -> Result<u128, Error> {
    if attached_deposit < 1 {
        Err(Error::RequiresDeposit)
    } else if !tokens.contains_key(token_id) {
        Err(Error::TokenNotFound)
    } else if predecessor != tokens[token_id].owner_id {
        Err(Error::Unauthorized)
    } else if tokens[token_id].next_approval_id == u64::MAX {
        Err(Error::ApprovalIdsExhausted)
    } else {
        let used = if tokens[token_id].approvals.contains_key(account) {
            0
        } else {
            cap_u64(approval_bytes(account))
        };
        deposit_refund(used, attached_deposit as int, storage_byte_cost as int)
    }
}

/// Why the owner's call on a token is refused, if it is.
pub open spec fn owner_call_error(
    tokens: Map<Seq<char>, TokenView>,
    token_id: Seq<char>,
    predecessor: Seq<char>,
    attached_deposit: u128,
) -> Option<Error> {
    if attached_deposit != 1 {
        Some(Error::RequiresOneUnit)
    } else if !tokens.contains_key(token_id) {
        Some(Error::TokenNotFound)
    } else if predecessor != tokens[token_id].owner_id {
        Some(Error::Unauthorized)
    } else {
        None
    }
}

/// Right after `account` is approved, it counts as approved under the id that
/// the approval handed back; right after its approval is withdrawn, it counts as
/// approved under no id.
pub proof fn lemma_approve_then_revoke(before: Contract, approved: Contract, revoked: Contract, token_id: Seq<char>, account: Seq<char>)
    requires
        before.tokens().contains_key(token_id),
        approved.tokens() == before.tokens().insert(token_id, approved_token(before.tokens()[token_id], account)),
        revoked.tokens() == approved.tokens().insert(token_id, revoked_token(approved.tokens()[token_id], account)),
    ensures
        is_approved_spec(approved.tokens()[token_id], account, Some(before.tokens()[token_id].next_approval_id)),
        !is_approved_spec(revoked.tokens()[token_id], account, None),
{
}

/// Each approval takes the token's next id, which lies above every id in use,
/// and moves the counter on by one; withdrawing one approval or all of them
/// leaves the counter where it is. So the ids of successive approvals of a
/// token strictly increase, across any withdrawals, and none is used twice.
pub proof fn lemma_approval_ids_increase(t: TokenView, a: Seq<char>, b: Seq<char>)
    requires
        forall|x: Seq<char>| #[trigger] t.approvals.contains_key(x) ==> t.approvals[x] < t.next_approval_id,
        t.next_approval_id < u64::MAX,
    ensures
        forall|x: Seq<char>| #[trigger] t.approvals.contains_key(x) ==> t.approvals[x] < t.next_approval_id,
        approved_token(t, a).next_approval_id > t.next_approval_id,
        approved_token(t, a).approvals[a] == t.next_approval_id,
        revoked_token(t, b).next_approval_id == t.next_approval_id,
        revoked_all_token(t).next_approval_id == t.next_approval_id,
        approved_token(revoked_all_token(approved_token(t, a)), b).approvals[b] > approved_token(t, a).approvals[a],
        approved_token(revoked_token(approved_token(t, a), a), b).approvals[b] > approved_token(t, a).approvals[a],
{
}

/// Granting and withdrawing the right to transfer a token.
pub trait NonFungibleTokenCore {
    spec fn approvals_wf(&self) -> bool;

    /// Approves `account_id` to transfer the token on the owner's behalf.
    fn nft_approve(
        &mut self,
        token_id: String,
        account_id: String,
        msg: Option<String>,
        predecessor_id: &String,
        attached_deposit: u128,
        storage_byte_cost: u128,
    ) -> (r: Result<Approval, Error>)
        requires
            old(self).approvals_wf(),
        ensures
            final(self).approvals_wf(),
    ;

    /// Whether `approved_account_id` may transfer the token, under
    /// `approval_id` if one is named.
    fn nft_is_approved(&self, token_id: String, approved_account_id: String, approval_id: Option<u64>) -> (r: Result<
        bool,
        Error,
    >)
        requires
            self.approvals_wf(),
    ;

    /// Withdraws the approval of `account_id`; hands back the bytes of storage
    /// to refund to the owner.
    fn nft_revoke(&mut self, token_id: String, account_id: String, predecessor_id: &String, attached_deposit: u128) -> (r:
        Result<u64, Error>)
        requires
            old(self).approvals_wf(),
        ensures
            final(self).approvals_wf(),
    ;

    /// Withdraws every approval of the token; hands back the bytes of storage
    /// to refund to the owner.
    fn nft_revoke_all(&mut self, token_id: String, predecessor_id: &String, attached_deposit: u128) -> (r: Result<
        u64,
        Error,
    >)
        requires
            old(self).approvals_wf(),
        ensures
            final(self).approvals_wf(),
    ;
}

impl NonFungibleTokenCore for Contract {
    open spec fn approvals_wf(&self) -> bool {
        self.wf()
    }

    fn nft_approve(
        &mut self,
        token_id: String,
        account_id: String,
        msg: Option<String>,
        predecessor_id: &String,
        attached_deposit: u128,
        storage_byte_cost: u128,
    ) -> (r: Result<Approval, Error>)
        ensures
            match approve_result(
                old(self).tokens(),
                token_id@,
                account_id@,
                predecessor_id@,
                attached_deposit,
                storage_byte_cost,
            ) {
                Err(e) => r == Err::<Approval, Error>(e) && *final(self) == *old(self),
                Ok(refund) => r is Ok && r->Ok_0.approval_id == old(self).tokens()[token_id@].next_approval_id
                    && r->Ok_0.refund == refund && r->Ok_0.notify_msg == msg && final(self).tokens()
                    == old(self).tokens().insert(token_id@, approved_token(old(self).tokens()[token_id@], account_id@))
                    && final(self).owned() == old(self).owned(),
            },
    {
        assert_at_least_one_yocto(attached_deposit)?;
        let token = match self.tokens_by_id.get(&token_id) {
            Some(t) => t,
            None => {
                return Err(Error::TokenNotFound);
            },
        };
        if *predecessor_id != token.owner_id {
            return Err(Error::Unauthorized);
        }
        let approval_id = token.next_approval_id;
        if approval_id == u64::MAX {
            return Err(Error::ApprovalIdsExhausted);
        }
        let storage_used = if token.approved_account_ids.contains_key(&account_id) {
            0
        } else {
            bytes_for_approved_account_id(&account_id)
        };
        let refund = refund_deposit(storage_used, attached_deposit, storage_byte_cost)?;
        let ghost before = *self;
        let mut token = self.tokens_by_id.remove(&token_id).unwrap();
        let ghost old_token = token;
        token.approved_account_ids.insert(account_id, approval_id);
        token.next_approval_id = approval_id + 1;
        let ghost nt = token;
        self.tokens_by_id.insert(token_id, token);
        proof {
            assert(nt@ == approved_token(old_token@, account_id@));
            assert(self.tokens() =~= before.tokens().insert(token_id@, approved_token(old_token@, account_id@)));
            lemma_owner_kept(before, *self, token_id@, approved_token(old_token@, account_id@));
        }
        Ok(Approval { approval_id, refund, notify_msg: msg })
    }

    fn nft_is_approved(&self, token_id: String, approved_account_id: String, approval_id: Option<u64>) -> (r: Result<
        bool,
        Error,
    >)
        ensures
            !self.tokens().contains_key(token_id@) ==> r == Err::<bool, Error>(Error::TokenNotFound),
            self.tokens().contains_key(token_id@) ==> r == Ok::<bool, Error>(
                is_approved_spec(self.tokens()[token_id@], approved_account_id@, approval_id),
            ),
    {
        let token = match self.tokens_by_id.get(&token_id) {
            Some(t) => t,
            None => {
                return Err(Error::TokenNotFound);
            },
        };
        match token.approved_account_ids.get(&approved_account_id) {
            Some(approval) => match approval_id {
                Some(id) => Ok(id == *approval),
                None => Ok(true),
            },
            None => Ok(false),
        }
    }

    fn nft_revoke(&mut self, token_id: String, account_id: String, predecessor_id: &String, attached_deposit: u128) -> (r:
        Result<u64, Error>)
        ensures
            match owner_call_error(old(self).tokens(), token_id@, predecessor_id@, attached_deposit) {
                Some(e) => r == Err::<u64, Error>(e) && *final(self) == *old(self),
                None => {
                    let t = old(self).tokens()[token_id@];
                    &&& r == Ok::<u64, Error>(
                        if t.approvals.contains_key(account_id@) {
                            cap_u64(approval_bytes(account_id@)) as u64
                        } else {
                            0
                        },
                    )
                    &&& final(self).tokens() == old(self).tokens().insert(token_id@, revoked_token(t, account_id@))
                    &&& final(self).owned() == old(self).owned()
                },
            },
    {
        assert_one_yocto(attached_deposit)?;
        let token = match self.tokens_by_id.get(&token_id) {
            Some(t) => t,
            None => {
                return Err(Error::TokenNotFound);
            },
        };
        if *predecessor_id != token.owner_id {
            return Err(Error::Unauthorized);
        }
        if !token.approved_account_ids.contains_key(&account_id) {
            proof {
                let t = self.tokens()[token_id@];
                assert(t.approvals.remove(account_id@) =~= t.approvals);
                assert(self.tokens().insert(token_id@, revoked_token(t, account_id@)) =~= self.tokens());
            }
            return Ok(0);
        }
        let ghost before = *self;
        let mut token = self.tokens_by_id.remove(&token_id).unwrap();
        let ghost old_token = token;
        token.approved_account_ids.remove(&account_id);
        let ghost nt = token;
        self.tokens_by_id.insert(token_id, token);
        proof {
            assert(nt@ == revoked_token(old_token@, account_id@));
            assert(self.tokens() =~= before.tokens().insert(token_id@, revoked_token(old_token@, account_id@)));
            lemma_owner_kept(before, *self, token_id@, revoked_token(old_token@, account_id@));
        }
        Ok(bytes_for_approved_account_id(&account_id))
    }

    fn nft_revoke_all(&mut self, token_id: String, predecessor_id: &String, attached_deposit: u128) -> (r: Result<
        u64,
        Error,
    >)
        ensures
            match owner_call_error(old(self).tokens(), token_id@, predecessor_id@, attached_deposit) {
                Some(e) => r == Err::<u64, Error>(e) && *final(self) == *old(self),
                None => {
                    let t = old(self).tokens()[token_id@];
                    &&& r == Ok::<u64, Error>(
                        cap_u64(
                            released_bytes(old(self).tokens_by_id@[token_id@].approved_account_ids.key_seq()),
                        ) as u64,
                    )
                    &&& final(self).tokens() == old(self).tokens().insert(token_id@, revoked_all_token(t))
                    &&& final(self).owned() == old(self).owned()
                },
            },
    {
        assert_one_yocto(attached_deposit)?;
        let token = match self.tokens_by_id.get(&token_id) {
            Some(t) => t,
            None => {
                return Err(Error::TokenNotFound);
            },
        };
        if *predecessor_id != token.owner_id {
            return Err(Error::Unauthorized);
        }
        if token.approved_account_ids.is_empty() {
            proof {
                let t = self.tokens()[token_id@];
                assert(t.approvals =~= Map::<Seq<char>, u64>::empty());
                assert(token.approved_account_ids.entries@.len() == 0);
                assert(token.approved_account_ids.key_seq() =~= Seq::<Seq<char>>::empty());
                assert(self.tokens().insert(token_id@, revoked_all_token(t)) =~= self.tokens());
            }
            return Ok(0);
        }
        let released = refund_approved_account_ids(&token.approved_account_ids);
        let ghost before = *self;
        let mut token = self.tokens_by_id.remove(&token_id).unwrap();
        let ghost old_token = token;
        token.approved_account_ids.clear();
        let ghost nt = token;
        self.tokens_by_id.insert(token_id, token);
        proof {
            assert(nt@ == revoked_all_token(old_token@));
            assert(self.tokens() =~= before.tokens().insert(token_id@, revoked_all_token(old_token@)));
            lemma_owner_kept(before, *self, token_id@, revoked_all_token(old_token@));
        }
        Ok(released)
    }
}

} // verus!
