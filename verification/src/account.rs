//! Account identities: opaque, fixed-width handles used as map keys.

use vstd::prelude::*;

verus! {

/// An opaque account identifier. The ledger only ever compares identities for
/// equality; the host environment decides what the bits mean.
#[derive(Clone, Copy, PartialEq, Eq, Structural, Debug)]
pub struct AccountId {
    pub id: u64,
}

} // verus!
