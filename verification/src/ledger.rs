//! The ledger and its transfer rule engine.
//!
//! `Simple_NFT` owns the token-to-owner map, the per-owner counters, the
//! token metadata, and the per-token approval registry, plus a log of
//! the notifications it has recorded. Every mutation either completes in
//! full or leaves the state untouched.

use crate::table::count_of;
use crate::table::lemma_count_is_key_set_len;
use crate::table::lemma_get_at_index;
use crate::table::lemma_get_counted;
use crate::table::lemma_get_some_index;
use crate::table::lemma_push_entry;
use crate::table::lemma_remove_entry;
use crate::table::lemma_update_value;
use crate::table::table_get;
use crate::table::unique_keys;
use crate::types::AccountId;
use crate::types::Approval;
use crate::types::Error;
use crate::types::TokenId;
use crate::types::Transfer;
use crate::MATEDATA_INIT;
use crate::TOKENID_INIT;
use vstd::prelude::*;

verus! {

/// The NFT ledger: three mappings, the approval registry, and the
/// record of notifications.
#[allow(non_camel_case_types)]
pub struct Simple_NFT {
    /// Mapping from token to owner.
    token_owner: Vec<(TokenId, AccountId)>,
    /// Mapping from owner to number of owned tokens.
    owned_tokens_count: Vec<(AccountId, u32)>,
    /// Mapping from token to its metadata tag, set once at mint time.
    matedatas: Vec<(TokenId, u32)>,
    /// Mapping from (owner, token) to the single approved delegate.
    approvals_token: Vec<((AccountId, TokenId), AccountId)>,
    /// Transfer notifications, one per successful transfer.
    transfer_log: Vec<Transfer>,
    /// Approval notifications, one per successful grant.
    approval_log: Vec<Approval>,
}

impl Simple_NFT {
    /// The owner of token `id`; `None` means the token does not exist.
    pub closed spec fn spec_owner_of(self, id: TokenId) -> Option<AccountId> {
        table_get(self.token_owner@, id)
    }

    /// The recorded balance of `owner`; an absent counter counts as 0.
    pub closed spec fn spec_balance_of(self, owner: AccountId) -> u32 {
        match table_get(self.owned_tokens_count@, owner) {
            Some(c) => c,
            None => 0,
        }
    }

    /// The delegate recorded for the pair (`owner`, `id`), if any.
    pub closed spec fn spec_approved_for(self, owner: AccountId, id: TokenId) -> Option<
        AccountId,
    > {
        table_get(self.approvals_token@, (owner, id))
    }

    /// The metadata tag of token `id`, if the token was ever minted.
    pub closed spec fn spec_metadata_of(self, id: TokenId) -> Option<u32> {
        table_get(self.matedatas@, id)
    }

    /// The transfer notifications recorded so far.
    pub closed spec fn spec_transfers(self) -> Seq<Transfer> {
        self.transfer_log@
    }

    /// The approval notifications recorded so far.
    pub closed spec fn spec_approvals(self) -> Seq<Approval> {
        self.approval_log@
    }

    /// Well-formedness: keys are unique in every table, no token is owned
    /// by the null identity, every owner's counter equals the number of
    /// tokens mapped to it, and every approval is keyed to its token's
    /// current owner with a non-null delegate.
    pub closed spec fn wf(self) -> bool {
        &&& unique_keys(self.token_owner@)
        &&& unique_keys(self.owned_tokens_count@)
        &&& unique_keys(self.approvals_token@)
        &&& unique_keys(self.matedatas@)
        &&& forall|t: TokenId| (#[trigger] self.spec_owner_of(t)) matches Some(o) ==> !o.is_null()
        &&& forall|o: AccountId|
            (#[trigger] self.spec_balance_of(o)) as nat == count_of(self.token_owner@, o)
        &&& forall|o: AccountId, t: TokenId|
            (#[trigger] self.spec_approved_for(o, t)) matches Some(d) ==> !d.is_null()
                && self.spec_owner_of(t) == Some(o)
    }

    /// The set of tokens currently owned by `o`.
    pub open spec fn owned_tokens(self, o: AccountId) -> Set<TokenId> {
        Set::new(|t: TokenId| self.spec_owner_of(t) == Some(o))
    }

    /// The delegate test: `user` is non-null and is the delegate recorded
    /// for the token's current owner. A token with no owner has no
    /// delegate.
    pub open spec fn spec_is_approved(self, id: TokenId, user: AccountId) -> bool {
        &&& !user.is_null()
        &&& match self.spec_owner_of(id) {
            Some(owner) => self.spec_approved_for(owner, id) == Some(user),
            None => false,
        }
    }

    /// The rule for inserting token `id` for `to`, checked in full before
    /// any state is touched.
    pub open spec fn spec_add_check(self, to: AccountId, id: TokenId) -> Result<(), Error> {
        if self.spec_owner_of(id) is Some {
            Err(Error::TokenExists)
        } else if to.is_null() {
            Err(Error::NotAllowed)
        } else if self.spec_balance_of(to) == u32::MAX {
            Err(Error::CannotInsert)
        } else {
            Ok(())
        }
    }

    /// The rule for removing token `id` from `from`: the token must be
    /// recorded as owned by `from`.
    pub open spec fn spec_remove_check(self, from: AccountId, id: TokenId) -> Result<(), Error> {
        if self.spec_owner_of(id) != Some(from) {
            Err(Error::TokenNotFound)
        } else {
            Ok(())
        }
    }

    /// The rule for granting `to` the right to transfer token `id` on
    /// behalf of `caller`.
    pub open spec fn spec_approve_check(self, caller: AccountId, to: AccountId, id: TokenId) -> Result<
        (),
        Error,
    > {
        if self.spec_owner_of(id) != Some(caller) {
            Err(Error::NotAllowed)
        } else if to.is_null() {
            Err(Error::NotAllowed)
        } else {
            Ok(())
        }
    }

    /// The transfer rule of the engine, every check in order: the token
    /// must exist; on the direct path the caller must be the owner, on
    /// the delegated path the caller must be the recorded delegate; the
    /// token must be owned by `from`; the destination must be non-null
    /// and must have room in its counter.
    pub open spec fn spec_transfer_check(
        self,
        caller: AccountId,
        from: AccountId,
        to: AccountId,
        id: TokenId,
        need_approval: bool,
    ) -> Result<(), Error> {
        if self.spec_owner_of(id) is None {
            Err(Error::TokenNotFound)
        } else if !need_approval && self.spec_owner_of(id) != Some(caller) {
            Err(Error::NotAllowed)
        } else if need_approval && !self.spec_is_approved(id, caller) {
            Err(Error::NotApproved)
        } else if self.spec_owner_of(id) != Some(from) {
            Err(Error::TokenNotFound)
        } else if to.is_null() {
            Err(Error::NotAllowed)
        } else if from != to && self.spec_balance_of(to) == u32::MAX {
            Err(Error::CannotInsert)
        } else {
            Ok(())
        }
    }

    /// Returns the balance of the owner: the number of unique tokens the
    /// owner has. An owner with no recorded entry has balance 0.
    pub fn balance_of(&self, owner: AccountId) -> (r: u32)
        requires
            self.wf(),
        ensures
            r == self.spec_balance_of(owner),
    {
        self.balance_of_or_zero(owner)
    }

    /// Returns the owner of the token, or `None` if it does not exist.
    pub fn owner_of(&self, id: TokenId) -> (r: Option<AccountId>)
        requires
            self.wf(),
        ensures
            r == self.spec_owner_of(id),
    {
        match find_token(&self.token_owner, id) {
            Some(i) => Some(self.token_owner[i].1),
            None => None,
        }
    }

    /// Returns the approved delegate of this token's current owner, if
    /// any; `None` also when the token does not exist.
    pub fn get_approved(&self, id: TokenId) -> (r: Option<AccountId>)
        requires
            self.wf(),
        ensures
            r == (match self.spec_owner_of(id) {
                Some(o) => self.spec_approved_for(o, id),
                None => None::<AccountId>,
            }),
    {
        let owner = match self.owner_of(id) {
            Some(o) => o,
            None => {
                return None;
            },
        };
        match find_approval(&self.approvals_token, owner, id) {
            Some(j) => Some(self.approvals_token[j].1),
            None => None,
        }
    }

    /// Returns `true` if `user` is the delegate approved by the token's
    /// current owner.
    pub fn is_approved(&self, id: TokenId, user: AccountId) -> (r: bool)
        requires
            self.wf(),
        ensures
            r == self.spec_is_approved(id, user),
    {
        self.approved_for_token(id, user)
    }

    /// Returns the metadata tag assigned to the token at mint time, or
    /// `None` if it was never minted.
    pub fn metadata_of(&self, id: TokenId) -> (r: Option<u32>)
        requires
            self.wf(),
        ensures
            r == self.spec_metadata_of(id),
    {
        match find_meta(&self.matedatas, id) {
            Some(i) => Some(self.matedatas[i].1),
            None => None,
        }
    }

    /// Returns true if token `id` exists, that is, has a recorded owner.
    pub fn token_exists(&self, id: TokenId) -> (r: bool)
        requires
            self.wf(),
        ensures
            r == (self.spec_owner_of(id) is Some),
    {
        match find_token(&self.token_owner, id) {
            Some(_) => true,
            None => false,
        }
    }

    /// How many transfer notifications have been recorded.
    pub fn transfer_count(&self) -> (n: usize)
        ensures
            n == self.spec_transfers().len(),
    {
        self.transfer_log.len()
    }

    /// The `i`-th recorded transfer notification.
    pub fn transfer_at(&self, i: usize) -> (r: Transfer)
        requires
            i < self.spec_transfers().len(),
        ensures
            r == self.spec_transfers()[i as int],
    {
        self.transfer_log[i]
    }

    /// How many approval notifications have been recorded.
    pub fn approval_count(&self) -> (n: usize)
        ensures
            n == self.spec_approvals().len(),
    {
        self.approval_log.len()
    }

    /// The `i`-th recorded approval notification.
    pub fn approval_at(&self, i: usize) -> (r: Approval)
        requires
            i < self.spec_approvals().len(),
        ensures
            r == self.spec_approvals()[i as int],
    {
        self.approval_log[i]
    }

    /// Returns the total number of tokens from an account.
    fn balance_of_or_zero(&self, of: AccountId) -> (r: u32)
        requires
            self.wf(),
        ensures
            r == self.spec_balance_of(of),
    {
        match find_count(&self.owned_tokens_count, of) {
            Some(i) => self.owned_tokens_count[i].1,
            None => 0,
        }
    }

    /// Checks whether `user` holds the approval for the token, keyed by
    /// its current owner.
    fn approved_for_token(&self, id: TokenId, user: AccountId) -> (r: bool)
        requires
            self.wf(),
        ensures
            r == self.spec_is_approved(id, user),
    {
        if user.is_zero() {
            return false;
        }
        let owner = match self.owner_of(id) {
            Some(o) => o,
            None => {
                return false;
            },
        };
        match find_approval(&self.approvals_token, owner, id) {
            Some(j) => {
                let d = self.approvals_token[j].1;
                d == user
            },
            None => false,
        }
    }

    /// Adds the token `id` to the account `to`: inserts the ownership
    /// entry and raises the destination's counter, or fails with the
    /// ledger untouched.
    pub fn add_token_to(&mut self, to: AccountId, id: TokenId) -> (r: Result<(), Error>)
        requires
            old(self).wf(),
        ensures
            r == old(self).spec_add_check(to, id),
            r is Err ==> *final(self) == *old(self),
            r is Ok ==> {
                &&& final(self).wf()
                &&& final(self).spec_owner_of(id) == Some(to)
                &&& forall|t: TokenId|
                    t != id ==> final(self).spec_owner_of(t) == old(self).spec_owner_of(t)
                &&& final(self).spec_balance_of(to) == old(self).spec_balance_of(to) + 1
                &&& forall|o: AccountId|
                    o != to ==> final(self).spec_balance_of(o) == old(self).spec_balance_of(o)
                &&& forall|o: AccountId, t: TokenId|
                    final(self).spec_approved_for(o, t) == old(self).spec_approved_for(o, t)
                &&& forall|t: TokenId|
                    final(self).spec_metadata_of(t) == old(self).spec_metadata_of(t)
                &&& final(self).spec_transfers() == old(self).spec_transfers()
                &&& final(self).spec_approvals() == old(self).spec_approvals()
            },
    {
        match find_token(&self.token_owner, id) {
            Some(_) => {
                return Err(Error::TokenExists);
            },
            None => {},
        }
        if to.is_zero() {
            return Err(Error::NotAllowed);
        }
        match increase_counter_of(&mut self.owned_tokens_count, to) {
            Ok(()) => {},
            Err(e) => {
                return Err(e);
            },
        }
        self.token_owner.push((id, to));
        proof {
            let pre = *old(self);
            let post = *self;
            lemma_push_entry(pre.token_owner@, id, to);
            assert forall|t: TokenId| (#[trigger] post.spec_owner_of(t)) is Some implies
                !post.spec_owner_of(t)->Some_0.is_null() by {
                if t != id {
                    assert(post.spec_owner_of(t) == pre.spec_owner_of(t));
                }
            }
            assert forall|o: AccountId| (#[trigger] post.spec_balance_of(o)) as nat == count_of(
                post.token_owner@,
                o,
            ) by {
                assert(pre.spec_balance_of(o) as nat == count_of(pre.token_owner@, o));
                assert(count_of(post.token_owner@, o) == count_of(pre.token_owner@, o) + (if to
                    == o {
                    1int
                } else {
                    0int
                }));
                if o != to {
                    assert(table_get(post.owned_tokens_count@, o) == table_get(
                        pre.owned_tokens_count@,
                        o,
                    ));
                }
            }
            assert forall|o: AccountId, t: TokenId|
                (#[trigger] post.spec_approved_for(o, t)) is Some implies !post.spec_approved_for(
                o,
                t,
            )->Some_0.is_null() && post.spec_owner_of(t) == Some(o) by {
                assert(post.spec_approved_for(o, t) == pre.spec_approved_for(o, t));
                if t != id {
                    assert(post.spec_owner_of(t) == pre.spec_owner_of(t));
                } else {
                    assert(pre.spec_owner_of(id) is None);
                }
            }
        }
        Ok(())
    }

    /// Removes token `id` from the account `from`: lowers the source's
    /// counter, garbage-collects the delegate entry keyed to the
    /// departing owner, and deletes the ownership entry; or fails with
    /// the ledger untouched. The token must be recorded as owned by
    /// `from`.
    pub fn remove_token_from(&mut self, from: AccountId, id: TokenId) -> (r: Result<(), Error>)
        requires
            old(self).wf(),
        ensures
            r == old(self).spec_remove_check(from, id),
            r is Err ==> *final(self) == *old(self),
            r is Ok ==> {
                &&& final(self).wf()
                &&& final(self).spec_owner_of(id) is None
                &&& forall|t: TokenId|
                    t != id ==> final(self).spec_owner_of(t) == old(self).spec_owner_of(t)
                &&& final(self).spec_balance_of(from) == old(self).spec_balance_of(from) - 1
                &&& forall|o: AccountId|
                    o != from ==> final(self).spec_balance_of(o) == old(self).spec_balance_of(o)
                &&& final(self).spec_approved_for(from, id) is None
                &&& forall|o: AccountId, t: TokenId|
                    !(o == from && t == id) ==> final(self).spec_approved_for(o, t) == old(
                        self,
                    ).spec_approved_for(o, t)
                &&& forall|t: TokenId|
                    final(self).spec_metadata_of(t) == old(self).spec_metadata_of(t)
                &&& final(self).spec_transfers() == old(self).spec_transfers()
                &&& final(self).spec_approvals() == old(self).spec_approvals()
            },
    {
        let idx = match find_token(&self.token_owner, id) {
            None => {
                return Err(Error::TokenNotFound);
            },
            Some(i) => i,
        };
        let owner = self.token_owner[idx].1;
        if !(owner == from) {
            return Err(Error::TokenNotFound);
        }
        proof {
            lemma_get_counted(self.token_owner@, id, from);
            assert(old(self).spec_balance_of(from) as nat == count_of(
                old(self).token_owner@,
                from,
            ));
        }
        match decrease_counter_of(&mut self.owned_tokens_count, from) {
            Ok(()) => {},
            Err(e) => {
                return Err(e);
            },
        }
        match find_approval(&self.approvals_token, from, id) {
            Some(j) => {
                proof {
                    lemma_remove_entry(self.approvals_token@, j as int);
                }
                let _ = self.approvals_token.remove(j);
            },
            None => {},
        }
        proof {
            assert(table_get(self.approvals_token@, (from, id)) is None);
            assert(forall|k: (AccountId, TokenId)|
                k != (from, id) ==> table_get(self.approvals_token@, k) == table_get(
                    old(self).approvals_token@,
                    k,
                ));
            assert(unique_keys(self.approvals_token@));
            lemma_remove_entry(self.token_owner@, idx as int);
        }
        let _ = self.token_owner.remove(idx);
        proof {
            let pre = *old(self);
            let post = *self;
            assert(pre.spec_owner_of(id) == Some(from));
            assert forall|t: TokenId| (#[trigger] post.spec_owner_of(t)) is Some implies
                !post.spec_owner_of(t)->Some_0.is_null() by {
                if t != id {
                    assert(post.spec_owner_of(t) == pre.spec_owner_of(t));
                }
            }
            assert forall|o: AccountId| (#[trigger] post.spec_balance_of(o)) as nat == count_of(
                post.token_owner@,
                o,
            ) by {
                assert(pre.spec_balance_of(o) as nat == count_of(pre.token_owner@, o));
                assert(count_of(post.token_owner@, o) == count_of(pre.token_owner@, o) - (if from
                    == o {
                    1int
                } else {
                    0int
                }));
                if o != from {
                    assert(table_get(post.owned_tokens_count@, o) == table_get(
                        pre.owned_tokens_count@,
                        o,
                    ));
                }
            }
            assert forall|o: AccountId, t: TokenId|
                (#[trigger] post.spec_approved_for(o, t)) is Some implies !post.spec_approved_for(
                o,
                t,
            )->Some_0.is_null() && post.spec_owner_of(t) == Some(o) by {
                if !(o == from && t == id) {
                    assert(post.spec_approved_for(o, t) == pre.spec_approved_for(o, t));
                    if t == id {
                        assert(pre.spec_owner_of(id) == Some(o));
                        assert(o == from);
                    } else {
                        assert(post.spec_owner_of(t) == pre.spec_owner_of(t));
                    }
                }
            }
        }
        Ok(())
    }

    /// Removes any existing approval from token `id`, keyed to its
    /// current owner. Idempotent: succeeds when there is nothing to
    /// clear, also when the token does not exist.
    pub fn clear_approval(&mut self, id: TokenId) -> (r: Result<(), Error>)
        requires
            old(self).wf(),
        ensures
            r == Ok::<(), Error>(()),
            final(self).wf(),
            match old(self).spec_owner_of(id) {
                Some(o) => {
                    &&& final(self).spec_approved_for(o, id) is None
                    &&& forall|o2: AccountId, t2: TokenId|
                        !(o2 == o && t2 == id) ==> final(self).spec_approved_for(o2, t2) == old(
                            self,
                        ).spec_approved_for(o2, t2)
                },
                None => forall|o2: AccountId, t2: TokenId|
                    final(self).spec_approved_for(o2, t2) == old(self).spec_approved_for(o2, t2),
            },
            forall|t: TokenId| final(self).spec_owner_of(t) == old(self).spec_owner_of(t),
            forall|o: AccountId| final(self).spec_balance_of(o) == old(self).spec_balance_of(o),
            forall|t: TokenId| final(self).spec_metadata_of(t) == old(self).spec_metadata_of(t),
            final(self).spec_transfers() == old(self).spec_transfers(),
            final(self).spec_approvals() == old(self).spec_approvals(),
    {
        let owner = match self.owner_of(id) {
            Some(o) => o,
            None => {
                return Ok(());
            },
        };
        match find_approval(&self.approvals_token, owner, id) {
            Some(j) => {
                proof {
                    lemma_remove_entry(self.approvals_token@, j as int);
                }
                let _ = self.approvals_token.remove(j);
            },
            None => {},
        }
        proof {
            let pre = *old(self);
            let post = *self;
            assert forall|o2: AccountId, t2: TokenId|
                (#[trigger] post.spec_approved_for(o2, t2)) is Some implies
                !post.spec_approved_for(o2, t2)->Some_0.is_null() && post.spec_owner_of(t2)
                == Some(o2) by {
                if !(o2 == owner && t2 == id) {
                    assert(post.spec_approved_for(o2, t2) == pre.spec_approved_for(o2, t2));
                }
                assert(post.spec_owner_of(t2) == pre.spec_owner_of(t2));
            }
            assert forall|t: TokenId| (#[trigger] post.spec_owner_of(t)) is Some implies
                !post.spec_owner_of(t)->Some_0.is_null() by {
                assert(post.spec_owner_of(t) == pre.spec_owner_of(t));
            }
            assert forall|o: AccountId| (#[trigger] post.spec_balance_of(o)) as nat == count_of(
                post.token_owner@,
                o,
            ) by {
                assert(post.spec_balance_of(o) == pre.spec_balance_of(o));
                assert(pre.spec_balance_of(o) as nat == count_of(pre.token_owner@, o));
            }
        }
        Ok(())
    }

    /// Approves `to` to transfer the specified token on behalf of
    /// `caller`, who must be its current owner; the last grant wins.
    pub fn approve(&mut self, caller: AccountId, to: AccountId, id: TokenId) -> (r: Result<
        (),
        Error,
    >)
        requires
            old(self).wf(),
        ensures
            r == old(self).spec_approve_check(caller, to, id),
            r is Err ==> *final(self) == *old(self),
            r is Ok ==> approve_effect(*old(self), *final(self), caller, to, id),
    {
        self.approve_for(caller, to, id)
    }

    /// Grants `to` the right to transfer token `id` on behalf of
    /// `caller`: the caller must be the token's current owner and the
    /// delegate must be non-null. Overwrites any prior delegate for the
    /// same (owner, token) pair.
    pub fn approve_for(&mut self, caller: AccountId, to: AccountId, id: TokenId) -> (r: Result<
        (),
        Error,
    >)
        requires
            old(self).wf(),
        ensures
            r == old(self).spec_approve_check(caller, to, id),
            r is Err ==> *final(self) == *old(self),
            r is Ok ==> approve_effect(*old(self), *final(self), caller, to, id),
    {
        let owner = match self.owner_of(id) {
            Some(o) => o,
            None => {
                return Err(Error::NotAllowed);
            },
        };
        if !(owner == caller) {
            return Err(Error::NotAllowed);
        }
        if to.is_zero() {
            return Err(Error::NotAllowed);
        }
        match find_approval(&self.approvals_token, caller, id) {
            Some(j) => {
                proof {
                    lemma_update_value(self.approvals_token@, j as int, to);
                }
                self.approvals_token.set(j, ((caller, id), to));
            },
            None => {
                proof {
                    lemma_push_entry(self.approvals_token@, (caller, id), to);
                }
                self.approvals_token.push(((caller, id), to));
            },
        }
        proof {
            let pre = *old(self);
            let mid = *self;
            assert(table_get(mid.approvals_token@, (caller, id)) == Some(to));
            assert(forall|k: (AccountId, TokenId)|
                k != (caller, id) ==> table_get(mid.approvals_token@, k) == table_get(
                    pre.approvals_token@,
                    k,
                ));
            assert(unique_keys(mid.approvals_token@));
            assert forall|o2: AccountId, t2: TokenId|
                (#[trigger] mid.spec_approved_for(o2, t2)) is Some implies !mid.spec_approved_for(
                o2,
                t2,
            )->Some_0.is_null() && mid.spec_owner_of(t2) == Some(o2) by {
                assert(mid.spec_owner_of(t2) == pre.spec_owner_of(t2));
                if !(o2 == caller && t2 == id) {
                    assert(mid.spec_approved_for(o2, t2) == pre.spec_approved_for(o2, t2));
                }
            }
            assert forall|t: TokenId| (#[trigger] mid.spec_owner_of(t)) is Some implies
                !mid.spec_owner_of(t)->Some_0.is_null() by {
                assert(mid.spec_owner_of(t) == pre.spec_owner_of(t));
            }
            assert forall|o: AccountId| (#[trigger] mid.spec_balance_of(o)) as nat == count_of(
                mid.token_owner@,
                o,
            ) by {
                assert(mid.spec_balance_of(o) == pre.spec_balance_of(o));
                assert(pre.spec_balance_of(o) as nat == count_of(pre.token_owner@, o));
            }
        }
        let ghost granted = *self;
        self.approval_log.push(Approval { from: caller, to: to, id: id });
        proof {
            lemma_wf_same_core(granted, *self);
        }
        Ok(())
    }

    /// Transfers the token from the caller to the given destination: the
    /// direct path, where the caller must be the current owner.
    pub fn transfer(&mut self, caller: AccountId, destination: AccountId, id: TokenId) -> (r:
        Result<(), Error>)
        requires
            old(self).wf(),
        ensures
            r == old(self).spec_transfer_check(caller, caller, destination, id, false),
            r is Err ==> *final(self) == *old(self),
            r is Ok ==> transfer_effect(*old(self), *final(self), caller, destination, id),
    {
        self.transfer_token_from(caller, caller, destination, id, false)
    }

    /// Transfers an approved token between two accounts: the delegated
    /// path, where the caller must be the delegate approved by the
    /// token's current owner.
    pub fn transfer_from(
        &mut self,
        caller: AccountId,
        from: AccountId,
        to: AccountId,
        id: TokenId,
    ) -> (r: Result<(), Error>)
        requires
            old(self).wf(),
        ensures
            r == old(self).spec_transfer_check(caller, from, to, id, true),
            r is Err ==> *final(self) == *old(self),
            r is Ok ==> transfer_effect(*old(self), *final(self), from, to, id),
    {
        self.transfer_token_from(caller, from, to, id, true)
    }

    /// Transfers token `id` from `from` to `to` on behalf of `caller`:
    /// the one algorithm behind both transfer entry shapes. Every check
    /// runs before any mutation, so a failed call leaves the ledger
    /// untouched; a successful one clears the approval, moves the token,
    /// shifts the two counters, and records one notification, as one
    /// unit.
    pub fn transfer_token_from(
        &mut self,
        caller: AccountId,
        from: AccountId,
        to: AccountId,
        id: TokenId,
        need_approval: bool,
    ) -> (r: Result<(), Error>)
        requires
            old(self).wf(),
        ensures
            r == old(self).spec_transfer_check(caller, from, to, id, need_approval),
            r is Err ==> *final(self) == *old(self),
            r is Ok ==> transfer_effect(*old(self), *final(self), from, to, id),
    {
        let owner = match self.owner_of(id) {
            Some(o) => o,
            None => {
                return Err(Error::TokenNotFound);
            },
        };
        if !need_approval {
            if !(owner == caller) {
                return Err(Error::NotAllowed);
            }
        }
        if need_approval {
            if !self.approved_for_token(id, caller) {
                return Err(Error::NotApproved);
            }
        }
        if !(owner == from) {
            return Err(Error::TokenNotFound);
        }
        if to.is_zero() {
            return Err(Error::NotAllowed);
        }
        if !(from == to) {
            let bal = self.balance_of_or_zero(to);
            if bal == u32::MAX {
                return Err(Error::CannotInsert);
            }
        }
        // Every check has passed: none of the three mutations can fail.
        proof {
            let pre = *old(self);
            if from != to && pre.spec_approved_for(to, id) is Some {
                assert(pre.spec_owner_of(id) == Some(to));
            }
        }
        match self.clear_approval(id) {
            Ok(()) => {},
            Err(e) => {
                return Err(e);
            },
        }
        match self.remove_token_from(from, id) {
            Ok(()) => {},
            Err(e) => {
                return Err(e);
            },
        }
        match self.add_token_to(to, id) {
            Ok(()) => {},
            Err(e) => {
                return Err(e);
            },
        }
        let ghost moved = *self;
        self.transfer_log.push(Transfer { from: Some(from), to: Some(to), id: id });
        proof {
            lemma_wf_same_core(moved, *self);
        }
        Ok(())
    }

    /// Creates a new token ledger and mints the fixed initial batch of
    /// ten tokens to `caller`, with sequential metadata tags. A null
    /// caller cannot own tokens, so construction fails and no ledger is
    /// produced.
    pub fn new(caller: AccountId) -> (r: Result<Simple_NFT, Error>)
        ensures
            caller.is_null() ==> r == Err::<Simple_NFT, Error>(Error::NotAllowed),
            !caller.is_null() ==> (r matches Ok(nft) && fresh_ledger(nft, caller)),
    {
        let mut my = Simple_NFT {
            token_owner: Vec::new(),
            owned_tokens_count: Vec::new(),
            matedatas: Vec::new(),
            approvals_token: Vec::new(),
            transfer_log: Vec::new(),
            approval_log: Vec::new(),
        };
        proof {
            assert forall|o: AccountId| (#[trigger] my.spec_balance_of(o)) as nat == count_of(
                my.token_owner@,
                o,
            ) by {
                assert(count_of(my.token_owner@, o) == 0);
            }
            assert(my.wf());
        }
        match my.inherent_init(caller) {
            Ok(()) => Ok(my),
            Err(e) => Err(e),
        }
    }

    /// Mints the fixed initial batch to the constructing caller: ten
    /// tokens with sequential identifiers and metadata tags. Any mint
    /// failure here is fatal to construction.
    fn inherent_init(&mut self, caller: AccountId) -> (r: Result<(), Error>)
        requires
            old(self).wf(),
            old(self).token_owner@.len() == 0,
            old(self).owned_tokens_count@.len() == 0,
            old(self).matedatas@.len() == 0,
            old(self).approvals_token@.len() == 0,
            old(self).transfer_log@.len() == 0,
            old(self).approval_log@.len() == 0,
        ensures
            r is Ok <==> !caller.is_null(),
            r is Err ==> r == Err::<(), Error>(Error::NotAllowed),
            r is Ok ==> fresh_ledger(*final(self), caller),
    {
        if caller.is_zero() {
            return Err(Error::NotAllowed);
        }
        let mut i: u32 = 0;
        while i < 10
            invariant
                i <= 10,
                !caller.is_null(),
                self.wf(),
                forall|t: TokenId|
                    self.spec_owner_of(t) == (if TOKENID_INIT <= t < TOKENID_INIT + i {
                        Some(caller)
                    } else {
                        None::<AccountId>
                    }),
                forall|t: TokenId|
                    self.spec_metadata_of(t) == (if TOKENID_INIT <= t < TOKENID_INIT + i {
                        Some((MATEDATA_INIT + (t - TOKENID_INIT)) as u32)
                    } else {
                        None::<u32>
                    }),
                self.spec_balance_of(caller) == i,
                forall|o: AccountId| o != caller ==> self.spec_balance_of(o) == 0,
                forall|o: AccountId, t: TokenId| self.spec_approved_for(o, t) is None,
                self.spec_transfers().len() == 0,
                self.spec_approvals().len() == 0,
            decreases 10 - i,
        {
            let id = TOKENID_INIT + i;
            match self.add_token_to(caller, id) {
                Ok(()) => {},
                Err(e) => {
                    return Err(e);
                },
            }
            let ghost minted = *self;
            proof {
                assert(minted.spec_metadata_of(id) is None);
                assert(table_get(minted.matedatas@, id) is None);
                lemma_push_entry(minted.matedatas@, id, (MATEDATA_INIT + i) as u32);
            }
            self.matedatas.push((id, MATEDATA_INIT + i));
            proof {
                lemma_wf_same_core(minted, *self);
                let post = *self;
                assert forall|t: TokenId|
                    post.spec_metadata_of(t) == (if TOKENID_INIT <= t < TOKENID_INIT + (i + 1) {
                        Some((MATEDATA_INIT + (t - TOKENID_INIT)) as u32)
                    } else {
                        None::<u32>
                    }) by {
                    if t != id {
                        assert(post.spec_metadata_of(t) == minted.spec_metadata_of(t));
                    }
                }
                assert forall|t: TokenId|
                    post.spec_owner_of(t) == (if TOKENID_INIT <= t < TOKENID_INIT + (i + 1) {
                        Some(caller)
                    } else {
                        None::<AccountId>
                    }) by {
                    assert(post.spec_owner_of(t) == minted.spec_owner_of(t));
                }
                assert forall|o: AccountId, t: TokenId|
                    #[trigger] post.spec_approved_for(o, t) is None by {
                    assert(post.spec_approved_for(o, t) == minted.spec_approved_for(o, t));
                }
                assert(post.spec_balance_of(caller) == minted.spec_balance_of(caller));
                assert forall|o: AccountId| o != caller implies #[trigger] post.spec_balance_of(o)
                    == 0 by {
                    assert(post.spec_balance_of(o) == minted.spec_balance_of(o));
                }
                assert(post.spec_transfers() == minted.spec_transfers());
                assert(post.spec_approvals() == minted.spec_approvals());
            }
            i = i + 1;
        }
        Ok(())
    }
}

/// What a successful transfer of token `id` from `from` to `to` does to
/// a well-formed ledger `pre`: ownership moves to `to`, the two balances
/// shift by one, the departing owner's approval for the token is gone
/// and the new owner starts with none, all other state is kept, and one
/// transfer notification is recorded.
pub open spec fn transfer_effect(
    pre: Simple_NFT,
    post: Simple_NFT,
    from: AccountId,
    to: AccountId,
    id: TokenId,
) -> bool {
    &&& post.wf()
    &&& post.spec_owner_of(id) == Some(to)
    &&& forall|t: TokenId| t != id ==> post.spec_owner_of(t) == pre.spec_owner_of(t)
    &&& from != to ==> post.spec_balance_of(from) == pre.spec_balance_of(from) - 1
    &&& from != to ==> post.spec_balance_of(to) == pre.spec_balance_of(to) + 1
    &&& from == to ==> post.spec_balance_of(from) == pre.spec_balance_of(from)
    &&& forall|o: AccountId|
        o != from && o != to ==> post.spec_balance_of(o) == pre.spec_balance_of(o)
    &&& post.spec_approved_for(from, id) is None
    &&& post.spec_approved_for(to, id) is None
    &&& forall|o: AccountId, t: TokenId|
        !(o == from && t == id) ==> post.spec_approved_for(o, t) == pre.spec_approved_for(o, t)
    &&& forall|t: TokenId| post.spec_metadata_of(t) == pre.spec_metadata_of(t)
    &&& post.spec_transfers() == pre.spec_transfers().push(
        (Transfer { from: Some(from), to: Some(to), id: id }),
    )
    &&& post.spec_approvals() == pre.spec_approvals()
}

/// What a successful grant by `caller` of delegate `to` over token `id`
/// does to a well-formed ledger `pre`: exactly that delegate entry is
/// written, everything else is kept, and one approval notification is
/// recorded.
pub open spec fn approve_effect(
    pre: Simple_NFT,
    post: Simple_NFT,
    caller: AccountId,
    to: AccountId,
    id: TokenId,
) -> bool {
    &&& post.wf()
    &&& post.spec_approved_for(caller, id) == Some(to)
    &&& forall|o: AccountId, t: TokenId|
        !(o == caller && t == id) ==> post.spec_approved_for(o, t) == pre.spec_approved_for(o, t)
    &&& forall|t: TokenId| post.spec_owner_of(t) == pre.spec_owner_of(t)
    &&& forall|o: AccountId| post.spec_balance_of(o) == pre.spec_balance_of(o)
    &&& forall|t: TokenId| post.spec_metadata_of(t) == pre.spec_metadata_of(t)
    &&& post.spec_transfers() == pre.spec_transfers()
    &&& post.spec_approvals() == pre.spec_approvals().push(
        (Approval { from: caller, to: to, id: id }),
    )
}

/// The state of a ledger freshly constructed by `caller`: ten tokens
/// with sequential identifiers and metadata tags, all owned by the
/// caller, no other token, balance, approval, or notification.
pub open spec fn fresh_ledger(nft: Simple_NFT, caller: AccountId) -> bool {
    &&& nft.wf()
    &&& forall|t: TokenId|
        nft.spec_owner_of(t) == (if TOKENID_INIT <= t < TOKENID_INIT + 10 {
            Some(caller)
        } else {
            None::<AccountId>
        })
    &&& forall|t: TokenId|
        nft.spec_metadata_of(t) == (if TOKENID_INIT <= t < TOKENID_INIT + 10 {
            Some((MATEDATA_INIT + (t - TOKENID_INIT)) as u32)
        } else {
            None::<u32>
        })
    &&& nft.spec_balance_of(caller) == 10
    &&& forall|o: AccountId| o != caller ==> nft.spec_balance_of(o) == 0
    &&& forall|o: AccountId, t: TokenId| nft.spec_approved_for(o, t) is None
    &&& nft.spec_transfers().len() == 0
    &&& nft.spec_approvals().len() == 0
}

/// Well-formedness rests on the token, counter and approval tables
/// alone: it survives any change to the notification logs and any
/// metadata change that keeps the metadata keys unique.
proof fn lemma_wf_same_core(a: Simple_NFT, b: Simple_NFT)
    requires
        a.wf(),
        b.token_owner == a.token_owner,
        b.owned_tokens_count == a.owned_tokens_count,
        b.approvals_token == a.approvals_token,
        unique_keys(b.matedatas@),
    ensures
        b.wf(),
{
    assert forall|t: TokenId| (#[trigger] b.spec_owner_of(t)) is Some implies !b.spec_owner_of(
        t,
    )->Some_0.is_null() by {
        assert(b.spec_owner_of(t) == a.spec_owner_of(t));
    }
    assert forall|o: AccountId| (#[trigger] b.spec_balance_of(o)) as nat == count_of(
        b.token_owner@,
        o,
    ) by {
        assert(b.spec_balance_of(o) == a.spec_balance_of(o));
        assert(a.spec_balance_of(o) as nat == count_of(a.token_owner@, o));
    }
    assert forall|o: AccountId, t: TokenId|
        (#[trigger] b.spec_approved_for(o, t)) is Some implies !b.spec_approved_for(
        o,
        t,
    )->Some_0.is_null() && b.spec_owner_of(t) == Some(o) by {
        assert(b.spec_approved_for(o, t) == a.spec_approved_for(o, t));
        assert(b.spec_owner_of(t) == a.spec_owner_of(t));
    }
}

/// Balances count owned tokens: in every well-formed ledger state, the
/// balance of an owner equals the number of tokens whose recorded owner
/// it is.
pub proof fn lemma_balance_counts_owned_tokens(nft: Simple_NFT, o: AccountId)
    requires
        nft.wf(),
    ensures
        nft.owned_tokens(o).finite(),
        nft.owned_tokens(o).len() == nft.spec_balance_of(o),
{
    lemma_count_is_key_set_len(nft.token_owner@, o);
    assert(nft.owned_tokens(o) =~= Set::new(
        |t: TokenId| table_get(nft.token_owner@, t) == Some(o),
    ));
    assert(nft.spec_balance_of(o) as nat == count_of(nft.token_owner@, o));
}

/// A token's owner, where it has one, is a single non-null identity:
/// ownership is a partial function of the token, never the null account.
pub proof fn lemma_owner_single_nonnull(nft: Simple_NFT, t: TokenId)
    requires
        nft.wf(),
    ensures
        nft.spec_owner_of(t) matches Some(o) ==> !o.is_null(),
{
}

/// A recorded delegate is never the null identity and is always keyed to
/// the token's current owner.
pub proof fn lemma_delegate_nonnull(nft: Simple_NFT, o: AccountId, t: TokenId)
    requires
        nft.wf(),
    ensures
        nft.spec_approved_for(o, t) matches Some(d) ==> !d.is_null() && nft.spec_owner_of(t)
            == Some(o),
{
}

/// Index of the entry holding token `id`, with what the table binds.
fn find_token(v: &Vec<(TokenId, AccountId)>, id: TokenId) -> (r: Option<usize>)
    requires
        unique_keys(v@),
    ensures
        match r {
            Some(i) => i < v.len() && v@[i as int].0 == id && table_get(v@, id) == Some(
                v@[i as int].1,
            ),
            None => table_get(v@, id) is None,
        },
{
    let mut i: usize = 0;
    while i < v.len()
        invariant
            i <= v.len(),
            unique_keys(v@),
            forall|j: int| 0 <= j < i ==> v@[j].0 != id,
        decreases v.len() - i,
    {
        if v[i].0 == id {
            proof {
                lemma_get_at_index(v@, i as int);
            }
            return Some(i);
        }
        i = i + 1;
    }
    proof {
        lemma_get_some_index(v@, id);
    }
    None
}

/// Index of the counter entry for `of`, with what the table binds.
fn find_count(v: &Vec<(AccountId, u32)>, of: AccountId) -> (r: Option<usize>)
    requires
        unique_keys(v@),
    ensures
        match r {
            Some(i) => i < v.len() && v@[i as int].0 == of && table_get(v@, of) == Some(
                v@[i as int].1,
            ),
            None => table_get(v@, of) is None,
        },
{
    let mut i: usize = 0;
    while i < v.len()
        invariant
            i <= v.len(),
            unique_keys(v@),
            forall|j: int| 0 <= j < i ==> v@[j].0 != of,
        decreases v.len() - i,
    {
        if v[i].0 == of {
            proof {
                lemma_get_at_index(v@, i as int);
            }
            return Some(i);
        }
        i = i + 1;
    }
    proof {
        lemma_get_some_index(v@, of);
    }
    None
}

/// Index of the approval entry keyed by (`owner`, `id`), with what the
/// table binds.
fn find_approval(v: &Vec<((AccountId, TokenId), AccountId)>, owner: AccountId, id: TokenId) -> (r:
    Option<usize>)
    requires
        unique_keys(v@),
    ensures
        match r {
            Some(i) => i < v.len() && v@[i as int].0 == (owner, id) && table_get(v@, (owner, id))
                == Some(v@[i as int].1),
            None => table_get(v@, (owner, id)) is None,
        },
{
    let mut i: usize = 0;
    while i < v.len()
        invariant
            i <= v.len(),
            unique_keys(v@),
            forall|j: int| 0 <= j < i ==> v@[j].0 != (owner, id),
        decreases v.len() - i,
    {
        if v[i].0.0 == owner && v[i].0.1 == id {
            proof {
                assert(v@[i as int].0 == (owner, id));
                lemma_get_at_index(v@, i as int);
            }
            return Some(i);
        }
        i = i + 1;
    }
    proof {
        lemma_get_some_index(v@, (owner, id));
    }
    None
}

/// Index of the metadata entry for token `id`, with what the table binds.
fn find_meta(v: &Vec<(TokenId, u32)>, id: TokenId) -> (r: Option<usize>)
    requires
        unique_keys(v@),
    ensures
        match r {
            Some(i) => i < v.len() && v@[i as int].0 == id && table_get(v@, id) == Some(
                v@[i as int].1,
            ),
            None => table_get(v@, id) is None,
        },
{
    let mut i: usize = 0;
    while i < v.len()
        invariant
            i <= v.len(),
            unique_keys(v@),
            forall|j: int| 0 <= j < i ==> v@[j].0 != id,
        decreases v.len() - i,
    {
        if v[i].0 == id {
            proof {
                lemma_get_at_index(v@, i as int);
            }
            return Some(i);
        }
        i = i + 1;
    }
    proof {
        lemma_get_some_index(v@, id);
    }
    None
}

/// Raises the counter of `of` by one, creating it at 1 if absent; a
/// counter already at the maximum is a detectable fault, not a wrap.
fn increase_counter_of(hmap: &mut Vec<(AccountId, u32)>, of: AccountId) -> (r: Result<(), Error>)
    requires
        unique_keys(old(hmap)@),
    ensures
        r == (match table_get(old(hmap)@, of) {
            Some(c) => if c == u32::MAX {
                Err::<(), Error>(Error::CannotInsert)
            } else {
                Ok::<(), Error>(())
            },
            None => Ok::<(), Error>(()),
        }),
        r is Err ==> *final(hmap) == *old(hmap),
        r is Ok ==> {
            &&& unique_keys(final(hmap)@)
            &&& table_get(final(hmap)@, of) == Some(
                ((match table_get(old(hmap)@, of) {
                    Some(c) => c,
                    None => 0,
                }) + 1) as u32,
            )
            &&& forall|k: AccountId|
                k != of ==> table_get(final(hmap)@, k) == table_get(old(hmap)@, k)
        },
{
    match find_count(hmap, of) {
        Some(i) => {
            let c = hmap[i].1;
            if c == u32::MAX {
                return Err(Error::CannotInsert);
            }
            hmap.set(i, (of, c + 1));
            proof {
                lemma_update_value(old(hmap)@, i as int, (c + 1) as u32);
            }
            Ok(())
        },
        None => {
            hmap.push((of, 1));
            proof {
                lemma_push_entry(old(hmap)@, of, 1u32);
            }
            Ok(())
        },
    }
}

/// Lowers the counter of `of` by one; an absent counter, or one already
/// at zero, is a detectable fault, not a wrap.
fn decrease_counter_of(hmap: &mut Vec<(AccountId, u32)>, of: AccountId) -> (r: Result<(), Error>)
    requires
        unique_keys(old(hmap)@),
    ensures
        r == (match table_get(old(hmap)@, of) {
            Some(c) => if c == 0 {
                Err::<(), Error>(Error::CannotFetchValue)
            } else {
                Ok::<(), Error>(())
            },
            None => Err::<(), Error>(Error::CannotFetchValue),
        }),
        r is Err ==> *final(hmap) == *old(hmap),
        r is Ok ==> {
            &&& unique_keys(final(hmap)@)
            &&& table_get(final(hmap)@, of) == Some(
                ((match table_get(old(hmap)@, of) {
                    Some(c) => c,
                    None => 0,
                }) - 1) as u32,
            )
            &&& forall|k: AccountId|
                k != of ==> table_get(final(hmap)@, k) == table_get(old(hmap)@, k)
        },
{
    match find_count(hmap, of) {
        Some(i) => {
            let c = hmap[i].1;
            if c == 0 {
                return Err(Error::CannotFetchValue);
            }
            hmap.set(i, (of, c - 1));
            proof {
                lemma_update_value(old(hmap)@, i as int, (c - 1) as u32);
            }
            Ok(())
        },
        None => Err(Error::CannotFetchValue),
    }
}

} // verus!
