//! Fresh commit identifiers.

use vstd::prelude::*;
use crate::hex::{hex_of_nat, u64_to_hex};

verus! {

/// Relies on rand::random: a fresh pseudo-random 64-bit value. Nothing is
/// promised of it.
#[verifier::external_body]
fn random_u64() -> u64 {
    rand::random::<u64>()
}

/// Draws a fresh identifier: the lowercase hexadecimal rendering of a
/// random 64-bit value.
pub fn fresh_id() -> (r: String)
    ensures
        exists|n: u64| r@ == hex_of_nat(n as nat),
{
    let n = random_u64();
    let r = u64_to_hex(n);
    proof {
        assert(r@ == hex_of_nat(n as nat));
    }
    r
}

} // verus!
