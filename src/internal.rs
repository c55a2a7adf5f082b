use vstd::prelude::*;
use vstd::string::*;
use vstd::utf8::encode_utf8;
use crate::error::Error;
use crate::events::{EventLog, EventLogVariant, NftTransferLog, NFT_METADATA_SPEC, NFT_STANDARD_NAME};
use crate::nft::{Contract, Token, TokenView, add_owned, remove_owned};
use crate::strmap::StrMap;

verus! {

/// Bytes of storage that one approval entry for `account` takes: the account
/// id, a four-byte length and the eight-byte approval id.
pub open spec fn approval_bytes(account: Seq<char>) -> int {
    (encode_utf8(account).len() as usize) as int + 12
}

pub open spec fn cap_u64(x: int) -> int {
    if x > u64::MAX { u64::MAX as int } else { x }
}

/// Bytes of storage that the approval entries for `accounts` take.
pub open spec fn released_bytes(accounts: Seq<Seq<char>>) -> int
    decreases accounts.len(),
{
    if accounts.len() == 0 {
        0
    } else {
        released_bytes(accounts.drop_last()) + approval_bytes(accounts.last())
    }
}

/// Storage of an approval entry for `account_id`, in bytes (at most `u64::MAX`).
pub fn bytes_for_approved_account_id(account_id: &String) -> (r: u64)
    ensures
        r == cap_u64(approval_bytes(account_id@)),
{
    let s = account_id.as_str();
    let n = s.len() as u128 + 4 + 8;
    proof {
        assert(encode_utf8(account_id@).len() == s.spec_bytes().len());
    }
    if n > u64::MAX as u128 {
        u64::MAX
    } else {
        n as u64
    }
}

/// Storage released when the approvals of `approved_account_ids` go, in bytes
/// (at most `u64::MAX`); the caller refunds it to the owner at the byte price.
pub fn refund_approved_account_ids(approved_account_ids: &StrMap<u64>) -> (r: u64)
    ensures
        r == cap_u64(released_bytes(approved_account_ids.key_seq())),
{
    let mut total: u64 = 0;
    let mut i: usize = 0;
    while i < approved_account_ids.entries.len()
        invariant
            i <= approved_account_ids.entries@.len(),
            total == cap_u64(released_bytes(approved_account_ids.key_seq().take(i as int))),
        decreases approved_account_ids.entries@.len() - i,
    {
        proof {
            let ks = approved_account_ids.key_seq();
            assert(ks.take(i as int + 1).drop_last() == ks.take(i as int));
            lemma_released_nonneg(ks.take(i as int));
        }
        let b = bytes_for_approved_account_id(&approved_account_ids.entries[i].0);
        total = total.saturating_add(b);
        i = i + 1;
    }
    proof {
        assert(approved_account_ids.key_seq().take(i as int) == approved_account_ids.key_seq());
    }
    total
}

proof fn lemma_released_nonneg(accounts: Seq<Seq<char>>)
    ensures
        released_bytes(accounts) >= 0,
    decreases accounts.len(),
{
    if accounts.len() > 0 {
        lemma_released_nonneg(accounts.drop_last());
    }
}

/// Accepts a call that carries exactly one unit of deposit.
pub fn assert_one_yocto(attached_deposit: u128) -> (r: Result<(), Error>)
    ensures
        r == if attached_deposit == 1 { Ok::<(), Error>(()) } else { Err(Error::RequiresOneUnit) },
{
    if attached_deposit == 1 {
        Ok(())
    } else {
        Err(Error::RequiresOneUnit)
    }
}

/// Accepts a call that carries some deposit.
pub fn assert_at_least_one_yocto(attached_deposit: u128) -> (r: Result<(), Error>)
    ensures
        r == if attached_deposit >= 1 { Ok::<(), Error>(()) } else { Err(Error::RequiresDeposit) },
{
    if attached_deposit >= 1 {
        Ok(())
    } else {
        Err(Error::RequiresDeposit)
    }
}

/// What is handed back of `attached` once `used` bytes are paid for at
/// `byte_cost` each: nothing when one unit or less is left over.
pub open spec fn deposit_refund(used: int, attached: int, byte_cost: int) -> Result<u128, Error> {
    if byte_cost * used > attached {
        Err(Error::InsufficientStorageDeposit)
    } else if attached - byte_cost * used > 1 {
        Ok((attached - byte_cost * used) as u128)
    } else {
        Ok(0u128)
    }
}

/// Checks that the deposit pays for `storage_used` bytes and computes what is
/// to be refunded to the caller.
pub fn refund_deposit(storage_used: u64, attached_deposit: u128, storage_byte_cost: u128) -> (r: Result<u128, Error>)
    ensures
        r == deposit_refund(storage_used as int, attached_deposit as int, storage_byte_cost as int),
{
    match storage_byte_cost.checked_mul(storage_used as u128) {
        None => Err(Error::InsufficientStorageDeposit),
        Some(required_cost) => {
            if required_cost > attached_deposit {
                Err(Error::InsufficientStorageDeposit)
            } else {
                let refund = attached_deposit - required_cost;
                if refund > 1 {
                    Ok(refund)
                } else {
                    Ok(0)
                }
            }
        },
    }
}

/// The rights that an account holds over a token.
#[derive(Debug, Clone, Copy, PartialEq, Eq, Structural)]
pub enum Capability {
    Owner,
    ApprovedWithId(u64),
    Denied,
}

pub open spec fn capability_of(t: TokenView, account: Seq<char>) -> Capability {
    if account == t.owner_id {
        Capability::Owner
    } else if t.approvals.contains_key(account) {
        Capability::ApprovedWithId(t.approvals[account])
    } else {
        Capability::Denied
    }
}

/// Why `sender` may not move the token to `receiver`, if it may not.
pub open spec fn transfer_error(t: TokenView, sender: Seq<char>, receiver: Seq<char>, approval_id: Option<u64>) -> Option<
    Error,
> {
    match capability_of(t, sender) {
        Capability::Denied => Some(Error::Unauthorized),
        Capability::ApprovedWithId(id) if approval_id is Some && approval_id->0 != id => Some(Error::ApprovalMismatch),
        _ => if t.owner_id == receiver {
            Some(Error::SameOwnerTransfer)
        } else {
            None
        },
    }
}

/// The token once it has gone to `receiver`: no approvals carry over, the
/// approval counter and the royalty stay.
pub open spec fn transferred(t: TokenView, receiver: Seq<char>) -> TokenView {
    TokenView { owner_id: receiver, approvals: Map::empty(), next_approval_id: t.next_approval_id, royalty: t.royalty }
}

/// `log` records the move of `token` from `old_owner` to `new_owner`.
pub open spec fn is_transfer_log(
    log: EventLog,
    authorized_id: Option<Seq<char>>,
    old_owner: Seq<char>,
    new_owner: Seq<char>,
    token: Seq<char>,
    memo: Option<String>,
) -> bool {
    &&& log.standard@ == NFT_STANDARD_NAME@
    &&& log.version@ == NFT_METADATA_SPEC@
    &&& log.event matches EventLogVariant::NftTransfer(v) && v@.len() == 1 && {
        let r = v@[0];
        &&& match (r.authorized_id, authorized_id) {
            (Some(a), Some(b)) => a@ == b,
            (None, None) => true,
            _ => false,
        }
        &&& r.old_owner_id@ == old_owner
        &&& r.new_owner_id@ == new_owner
        &&& r.token_ids@.len() == 1
        &&& r.token_ids@[0]@ == token
        &&& r.memo == memo
    }
}

/// The rights of `account` over `token`.
pub fn capability(token: &Token, account: &String) -> (r: Capability)
    requires
        token.wf(),
    ensures
        r == capability_of(token@, account@),
{
    if *account == token.owner_id {
        Capability::Owner
    } else {
        match token.approved_account_ids.get(account) {
            Some(id) => Capability::ApprovedWithId(*id),
            None => Capability::Denied,
        }
    }
}

/// Checks that `sender` may move `token` to `receiver`, naming the approval it
/// must hold if `approval_id` is given.
pub fn check_transfer(token: &Token, sender: &String, receiver: &String, approval_id: Option<u64>) -> (r: Option<Error>)
    requires
        token.wf(),
    ensures
        r == transfer_error(token@, sender@, receiver@, approval_id),
{
    match capability(token, sender) {
        Capability::Denied => {
            return Some(Error::Unauthorized);
        },
        Capability::ApprovedWithId(id) => {
            match approval_id {
                Some(enforced) => {
                    if enforced != id {
                        return Some(Error::ApprovalMismatch);
                    }
                },
                None => {},
            }
        },
        Capability::Owner => {},
    }
    if token.owner_id == *receiver {
        Some(Error::SameOwnerTransfer)
    } else {
        None
    }
}

impl Contract {
    /// Moves `token_id` from its owner to `receiver_id` on behalf of
    /// `sender_id`, and hands back the token as it was with the event to log.
    pub fn internal_transfer(
        &mut self,
        sender_id: &String,
        receiver_id: &String,
        token_id: &String,
        approval_id: Option<u64>,
        memo: Option<String>,
    ) -> (r: Result<(Token, EventLog), Error>)
        requires
            old(self).wf(),
        ensures
            final(self).wf(),
            !old(self).tokens().contains_key(token_id@) ==> r == Err::<(Token, EventLog), Error>(Error::TokenNotFound)
                && *final(self) == *old(self),
            old(self).tokens().contains_key(token_id@) ==> {
                let t = old(self).tokens()[token_id@];
                match transfer_error(t, sender_id@, receiver_id@, approval_id) {
                    Some(e) => r == Err::<(Token, EventLog), Error>(e) && *final(self) == *old(self),
                    None => r is Ok && r->Ok_0.0 == old(self).tokens_by_id@[token_id@] && r->Ok_0.0.wf()
                        && final(self).tokens() == old(self).tokens().insert(token_id@, transferred(t, receiver_id@))
                        && final(self).owned() == add_owned(
                            remove_owned(old(self).owned(), t.owner_id, token_id@),
                            receiver_id@,
                            token_id@,
                        ) && is_transfer_log(
                            r->Ok_0.1,
                            if approval_id is Some { Some(sender_id@) } else { None },
                            t.owner_id,
                            receiver_id@,
                            token_id@,
                            memo,
                        ),
                }
            },
    {
        let token = match self.tokens_by_id.get(token_id) {
            Some(t) => t,
            None => {
                return Err(Error::TokenNotFound);
            },
        };
        match check_transfer(token, sender_id, receiver_id, approval_id) {
            Some(e) => {
                return Err(e);
            },
            None => {},
        }
        let ghost before = *self;
        let prev = self.tokens_by_id.remove(token_id).unwrap();
        let owner_id = prev.owner_id.clone();
        self.internal_remove_token_from_owner(&owner_id, token_id);
        self.internal_add_token_to_owner(receiver_id, token_id);
        let new_token = Token {
            owner_id: receiver_id.clone(),
            approved_account_ids: StrMap::new(),
            next_approval_id: prev.next_approval_id,
            royalty: prev.royalty.duplicate(),
        };
        let ghost nt = new_token;
        self.tokens_by_id.insert(token_id.clone(), new_token);
        proof {
            assert(nt@ == transferred(prev@, receiver_id@));
            assert(self.tokens() =~= before.tokens().insert(token_id@, transferred(prev@, receiver_id@)));
            assert forall|o: Seq<char>, t: Seq<char>|
                self.owned().contains_key(o) && #[trigger] self.owned()[o].contains(t) implies self.tokens().contains_key(t)
                    && self.tokens()[t].owner_id == o by {
                if t != token_id@ {
                    let mid = remove_owned(before.owned(), prev.owner_id@, token_id@);
                    assert(mid.contains_key(o) && mid[o].contains(t));
                    assert(before.owned().contains_key(o) && before.owned()[o].contains(t));
                } else if o != receiver_id@ {
                    let mid = remove_owned(before.owned(), prev.owner_id@, token_id@);
                    assert(mid.contains_key(o) && mid[o].contains(t));
                    assert(before.owned().contains_key(o) && before.owned()[o].contains(t));
                }
            }
        }
        let authorized_id = match approval_id {
            Some(_) => Some(sender_id.clone()),
            None => None,
        };
        let log = EventLog {
            standard: String::from_str(NFT_STANDARD_NAME),
            version: String::from_str(NFT_METADATA_SPEC),
            event: EventLogVariant::NftTransfer(
                vec![NftTransferLog {
                    authorized_id,
                    old_owner_id: owner_id,
                    new_owner_id: receiver_id.clone(),
                    token_ids: vec![token_id.clone()],
                    memo,
                }],
            ),
        };
        Ok((prev, log))
    }

    /// Records that `account_id` holds `token_id`.
    pub fn internal_add_token_to_owner(&mut self, account_id: &String, token_id: &String)
        requires
            old(self).storage_wf(),
        ensures
            final(self).storage_wf(),
            final(self).tokens_by_id == old(self).tokens_by_id,
            final(self).owned() == add_owned(old(self).owned(), account_id@, token_id@),
    {
        let ghost before = self.owned();
        let mut tokens_set = match self.tokens_per_owner.remove(account_id) {
            Some(s) => s,
            None => StrMap::new(),
        };
        tokens_set.insert(token_id.clone(), ());
        let ghost s = tokens_set;
        self.tokens_per_owner.insert(account_id.clone(), tokens_set);
        proof {
            if before.contains_key(account_id@) {
                assert(s@.dom() =~= before[account_id@].insert(token_id@));
            } else {
                assert(s@.dom() =~= set![token_id@]);
            }
            assert(self.owned() =~= add_owned(before, account_id@, token_id@));
        }
    }

    /// Records that `account_id` no longer holds `token_id`; an account left
    /// with no token leaves the index.
    pub fn internal_remove_token_from_owner(&mut self, account_id: &String, token_id: &String)
        requires
            old(self).storage_wf(),
        ensures
            final(self).storage_wf(),
            final(self).tokens_by_id == old(self).tokens_by_id,
            final(self).owned() == remove_owned(old(self).owned(), account_id@, token_id@),
    {
        let ghost before = self.owned();
        match self.tokens_per_owner.remove(account_id) {
            Some(mut tokens_set) => {
                tokens_set.remove(token_id);
                let ghost s = tokens_set;
                if !tokens_set.is_empty() {
                    self.tokens_per_owner.insert(account_id.clone(), tokens_set);
                    proof {
                        assert(s@.dom() =~= before[account_id@].remove(token_id@));
                        assert(s@.dom() != Set::<Seq<char>>::empty()) by {
                            if s@.dom() == Set::<Seq<char>>::empty() {
                                assert(s@ =~= Map::<Seq<char>, ()>::empty());
                            }
                        }
                        assert(self.owned() =~= remove_owned(before, account_id@, token_id@));
                    }
                } else {
                    proof {
                        assert(s@.dom() =~= before[account_id@].remove(token_id@));
                        assert(self.owned() =~= remove_owned(before, account_id@, token_id@));
                    }
                }
            },
            None => {
                proof {
                    assert(self.owned() =~= before);
                }
            },
        }
    }
}

} // verus!
