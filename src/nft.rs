use vstd::prelude::*;
use crate::error::Error;
use crate::strmap::StrMap;

verus! {

/// The sum of all basis points that a royalty grants.
pub open spec fn royalty_total(royalty: Seq<(String, u32)>) -> int
    decreases royalty.len(),
{
    if royalty.len() == 0 {
        0
    } else {
        royalty_total(royalty.drop_last()) + royalty.last().1 as int
    }
}

/// A token as the ledger holds it.
pub struct Token {
    pub owner_id: String,
    /// The accounts that may transfer the token, each with the id of its approval.
    pub approved_account_ids: StrMap<u64>,
    /// The id that the next approval will get.
    pub next_approval_id: u64,
    /// Basis points of every sale that go to each beneficiary.
    pub royalty: StrMap<u32>,
}

/// What a token is, seen from the outside.
pub struct TokenView {
    pub owner_id: Seq<char>,
    pub approvals: Map<Seq<char>, u64>,
    pub next_approval_id: u64,
    pub royalty: Seq<(String, u32)>,
}

impl View for Token {
    type V = TokenView;

    open spec fn view(&self) -> TokenView {
        TokenView {
            owner_id: self.owner_id@,
            approvals: self.approved_account_ids@,
            next_approval_id: self.next_approval_id,
            royalty: self.royalty.entries@,
        }
    }
}

impl Token {
    /// Every approval id that is in use lies below the next one, and the
    /// royalty grants at most the whole amount.
    pub open spec fn wf(&self) -> bool {
        &&& self.approved_account_ids.wf()
        &&& self.royalty.wf()
        &&& royalty_total(self.royalty.entries@) <= 10000
        &&& forall|a: Seq<char>| #[trigger]
            self.approved_account_ids@.contains_key(a) ==> self.approved_account_ids@[a] < self.next_approval_id
    }
}

/// The ledger of tokens: who owns what, and who may move it.
pub struct Contract {
    pub tokens_by_id: StrMap<Token>,
    /// For each owner, the ids of the tokens it holds.
    pub tokens_per_owner: StrMap<StrMap<()>>,
}

impl Contract {
    /// The ledger's invariant: well-formed storage, and an owner index that
    /// lists each token under its owner only.
    pub open spec fn wf(&self) -> bool {
        self.storage_wf() && self.index_consistent()
    }

    /// Every token listed under an owner exists and belongs to that owner.
    pub open spec fn index_consistent(&self) -> bool {
        forall|o: Seq<char>, t: Seq<char>|
            self.owned().contains_key(o) && #[trigger] self.owned()[o].contains(t) ==> self.tokens().contains_key(t)
                && self.tokens()[t].owner_id == o
    }

    pub open spec fn storage_wf(&self) -> bool {
        &&& self.tokens_by_id.wf()
        &&& self.tokens_per_owner.wf()
        &&& forall|t: Seq<char>| #[trigger] self.tokens_by_id@.contains_key(t) ==> self.tokens_by_id@[t].wf()
        &&& forall|o: Seq<char>| #[trigger] self.tokens_per_owner@.contains_key(o) ==> self.tokens_per_owner@[o].wf()
    }

    /// The tokens, by id.
    pub open spec fn tokens(&self) -> Map<Seq<char>, TokenView> {
        self.tokens_by_id@.map_values(|t: Token| t@)
    }

    /// The ids of the tokens that each owner holds.
    pub open spec fn owned(&self) -> Map<Seq<char>, Set<Seq<char>>> {
        self.tokens_per_owner@.map_values(|s: StrMap<()>| s@.dom())
    }

    /// An empty ledger.
    pub fn new() -> (r: Self)
        ensures
            r.wf(),
            r.tokens() == Map::<Seq<char>, TokenView>::empty(),
            r.owned() == Map::<Seq<char>, Set<Seq<char>>>::empty(),
    {
        let r = Contract { tokens_by_id: StrMap::new(), tokens_per_owner: StrMap::new() };
        assert(r.tokens() =~= Map::<Seq<char>, TokenView>::empty());
        assert(r.owned() =~= Map::<Seq<char>, Set<Seq<char>>>::empty());
        r
    }

    /// Puts a new token with no approvals into the ledger, owned by `owner_id`.
    /// Fails when the id is taken.
    pub fn mint(&mut self, token_id: String, owner_id: String, royalty: StrMap<u32>) -> (r: Result<(), Error>)
        requires
            old(self).wf(),
            royalty.wf(),
            royalty_total(royalty.entries@) <= 10000,
        ensures
            final(self).wf(),
            old(self).tokens().contains_key(token_id@) ==> r == Err::<(), Error>(Error::TokenExists)
                && *final(self) == *old(self),
            !old(self).tokens().contains_key(token_id@) ==> r is Ok && final(self).tokens() == old(self).tokens().insert(
                token_id@,
                TokenView {
                    owner_id: owner_id@,
                    approvals: Map::empty(),
                    next_approval_id: 0,
                    royalty: royalty.entries@,
                },
            ) && final(self).owned() == add_owned(old(self).owned(), owner_id@, token_id@),
    {
        if self.tokens_by_id.contains_key(&token_id) {
            return Err(Error::TokenExists);
        }
        let ghost before = *self;
        self.internal_add_token_to_owner(&owner_id, &token_id);
        let token = Token { owner_id, approved_account_ids: StrMap::new(), next_approval_id: 0, royalty };
        let ghost tv = token@;
        self.tokens_by_id.insert(token_id, token);
        proof {
            assert(self.tokens() =~= before.tokens().insert(token_id@, tv));
            assert forall|o: Seq<char>, t: Seq<char>|
                self.owned().contains_key(o) && #[trigger] self.owned()[o].contains(t) implies self.tokens().contains_key(t)
                    && self.tokens()[t].owner_id == o by {
                if t != token_id@ || o != owner_id@ {
                    assert(before.owned().contains_key(o) && before.owned()[o].contains(t));
                }
            }
        }
        Ok(())
    }
}

/// Changing a token in place, under the same owner, keeps the owner index right.
pub proof fn lemma_owner_kept(before: Contract, after: Contract, token_id: Seq<char>, t: TokenView)
    requires
        before.index_consistent(),
        before.tokens().contains_key(token_id),
        t.owner_id == before.tokens()[token_id].owner_id,
        after.tokens() == before.tokens().insert(token_id, t),
        after.owned() == before.owned(),
    ensures
        after.index_consistent(),
{
    assert forall|o: Seq<char>, x: Seq<char>|
        after.owned().contains_key(o) && #[trigger] after.owned()[o].contains(x) implies after.tokens().contains_key(x)
            && after.tokens()[x].owner_id == o by {
        assert(before.owned().contains_key(o) && before.owned()[o].contains(x));
    }
}

/// `owned` after `token` has gone to `account`.
pub open spec fn add_owned(owned: Map<Seq<char>, Set<Seq<char>>>, account: Seq<char>, token: Seq<char>) -> Map<
    Seq<char>,
    Set<Seq<char>>,
> {
    if owned.contains_key(account) {
        owned.insert(account, owned[account].insert(token))
    } else {
        owned.insert(account, set![token])
    }
}

/// `owned` after `token` has left `account`; an owner left with no token is dropped.
pub open spec fn remove_owned(owned: Map<Seq<char>, Set<Seq<char>>>, account: Seq<char>, token: Seq<char>) -> Map<
    Seq<char>,
    Set<Seq<char>>,
> {
    if !owned.contains_key(account) {
        owned
    } else if owned[account].remove(token) == Set::<Seq<char>>::empty() {
        owned.remove(account)
    } else {
        owned.insert(account, owned[account].remove(token))
    }
}

} // verus!
