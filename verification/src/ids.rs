use vstd::prelude::*;

use crate::text::{decimal, push_decimal};

verus! {

/// Draws 64 random bits from a version-4 UUID (`uuid::Uuid::new_v4`, then
/// `as_u64_pair`). The value comes from the operating system's random source,
/// so nothing is stated about it.
#[verifier::external_body]
pub(crate) fn random_u64() -> u64 {
    uuid::Uuid::new_v4().as_u64_pair().0
}

/// A new identifier: the decimal notation of 64 random bits.
pub(crate) fn fresh_id() -> (id: String)
    ensures
        exists|n: u64| id@ == decimal(n as nat),
{
    let mut r = String::new();
    let n = random_u64();
    push_decimal(&mut r, n);
    assert(r@ =~= decimal(n as nat));
    r
}

} // verus!
