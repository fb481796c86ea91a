//! Identities, errors, and notification shapes of the ledger.

use vstd::prelude::*;

verus! {

/// A token ID: the unique identifier of one NFT instance.
pub type TokenId = u32;

/// An opaque fixed-size identity value supplied by the caller context.
/// The distinguished all-zero value is reserved: it can never be a valid
/// owner, delegate, or transfer destination.
#[derive(Clone, Copy, PartialEq, Eq, Structural, Debug, Hash)]
pub struct AccountId {
    pub id: u128,
}

impl AccountId {
    /// Whether this is the reserved all-zero identity, meaning "no one".
    pub open spec fn is_null(self) -> bool {
        self.id == 0
    }

    /// The reserved all-zero identity.
    pub fn null() -> (r: AccountId)
        ensures
            r.is_null(),
    {
        AccountId { id: 0 }
    }

    /// Tests for the reserved all-zero identity.
    pub fn is_zero(&self) -> (r: bool)
        ensures
            r == self.is_null(),
    {
        self.id == 0
    }
}

/// The closed error taxonomy of the ledger. All variants are non-fatal
/// and locally recoverable by the caller; `CannotInsert`, `CannotRemove`
/// and `CannotFetchValue` signal an internal counter or map fault that
/// the ledger's invariants make unreachable.
#[derive(Clone, Copy, PartialEq, Eq, Structural, Debug)]
pub enum Error {
    NotOwner,
    NotApproved,
    TokenExists,
    TokenNotFound,
    CannotInsert,
    CannotRemove,
    CannotFetchValue,
    NotAllowed,
}

/// Notification recorded once per successful transfer.
#[derive(Clone, Copy, PartialEq, Eq, Debug)]
pub struct Transfer {
    pub from: Option<AccountId>,
    pub to: Option<AccountId>,
    pub id: TokenId,
}

/// Notification recorded once per successful approval grant.
#[derive(Clone, Copy, PartialEq, Eq, Debug)]
pub struct Approval {
    pub from: AccountId,
    pub to: AccountId,
    pub id: TokenId,
}

/// Reserved notification shape for an operator enabled or disabled over
/// all of an owner's tokens. The data model only supports per-token
/// delegation, so no operation produces this notification.
#[derive(Clone, Copy, PartialEq, Eq, Debug)]
pub struct ApprovalForAll {
    pub owner: AccountId,
    pub operator: AccountId,
    pub approved: bool,
}

} // verus!
