//! The source of randomness of the host.

use vstd::prelude::*;

verus! {

/// Draws a number from the host's random number generator and returns its
/// bit pattern.
///
/// This calls `js_sys::Math::random`, the binding of JavaScript's
/// `Math.random()`, which returns a double in `[0, 1)`, and converts the
/// double to its IEEE-754 bit pattern with `f64::to_bits`. The contract
/// promises nothing of the result: whatever the caller does with it is
/// proved for every pattern. The binding needs a JavaScript host to call
/// into.
#[verifier::external_body]
pub(crate) fn random_bits() -> u64 {
    js_sys::Math::random().to_bits()
}

} // verus!
