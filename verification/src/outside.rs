//! What the ledger takes from another crate: the identity that stands for
//! nobody.

use vstd::prelude::*;
use crate::model::UserId;

verus! {

/// Calls `uuid::Uuid::nil` and reads it with `uuid::Uuid::as_u128`. The nil
/// UUID has all of its 128 bits clear, so the number is 0. This is taken
/// from the crate's source and not proved here.
#[verifier::external_body]
pub(crate) fn nil_id() -> (id: UserId)
    ensures
        id == 0,
{
    uuid::Uuid::nil().as_u128()
}

} // verus!
