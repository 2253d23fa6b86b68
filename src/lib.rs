//! Modular arithmetic over a 256-bit modulus and the twisted Edwards group law of the
//! curve over the field of `2^255 - 19`.
use vstd::prelude::*;

pub mod limbs;
pub mod finite_field;
pub mod ed25519;
pub mod laws;
pub mod prime_field;

verus! {

} // verus!
