//! Random identifiers.

use crate::origin::{drawn_conv, drawn_incarnation};
use rand::Rng;
use vstd::prelude::*;

verus! {

/// `Rng::random` on the thread's generator: a number drawn at random, and marked as drawn. No
/// more can be said of it.
#[verifier::external_body]
pub(crate) fn random_incarnation() -> (incarnation: u64)
    ensures
        drawn_incarnation(incarnation),
{
    rand::rng().random::<u64>()
}

/// `Rng::random_range` on the thread's generator: a number drawn at random from the range, here
/// every `u32` but zero. It is marked as drawn.
#[verifier::external_body]
pub(crate) fn random_conv() -> (conv: u32)
    ensures
        conv >= 1,
        drawn_conv(conv),
{
    rand::rng().random_range(1..=u32::MAX)
}

} // verus!
