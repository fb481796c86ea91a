//! A minimal non-fungible-token ledger core.
//!
//! The ledger tracks which owner holds which unique token identifier,
//! enforces single ownership and delegated transfer rights, and mutates
//! that state only through a small set of operations (mint at
//! construction, transfer, approve, query). The hosting environment is
//! out of scope: the caller's identity is an explicit argument of every
//! entry point, and outbound notifications are recorded in the ledger's
//! own log instead of being delivered anywhere.

pub mod ledger;
pub mod table;
pub mod types;

use vstd::prelude::*;

verus! {

/// The identifier of the first token minted at construction.
pub const TOKENID_INIT: u32 = 188;

/// The metadata tag assigned to the first minted token; each later token
/// gets the next tag.
pub const MATEDATA_INIT: u32 = 20;

} // verus!
