//! What the library takes on trust.
//!
//! Nothing in this module is proved. Each contract says what the function it
//! stands for documents, and the rest of the library is verified against these
//! contracts alone: for every number that may be drawn and whichever
//! characters count as white space.

use rand::rngs::ThreadRng;
use rand::Rng;
use vstd::prelude::*;

verus! {

/// `rand::rngs::ThreadRng`, a handle to the random number generator of the
/// current thread. Its state is hidden: no contract speaks of what it holds.
#[verifier::external_type_specification]
#[verifier::external_body]
pub struct ExThreadRng(ThreadRng);

/// `rand::thread_rng` hands out the handle. Nothing is claimed of it.
pub assume_specification[ rand::thread_rng ]() -> (rng: ThreadRng)
;

/// Draws a number below `bound` by `Rng::gen_range(0..bound)`.
///
/// `gen_range` samples from the range it is given and panics on an empty one,
/// so the bound must be positive. The one thing claimed of the number is that
/// it lies in the range; which number it is, and that two draws agree, is not.
#[verifier::external_body]
pub(crate) fn below(rng: &mut ThreadRng, bound: usize) -> (index: usize)
    requires
        bound > 0,
    ensures
        index < bound,
{
    rng.gen_range(0..bound)
}

/// What `char::is_whitespace` says of `c`: whether Unicode counts it as
/// white space. Which characters those are is not said here, so nothing is
/// known of the answer but that it depends on the character alone.
pub uninterp spec fn is_white_space(c: char) -> bool;

/// Asks `char::is_whitespace`. The contract gives the answer its name and
/// claims nothing else.
#[verifier::external_body]
pub(crate) fn white_space(c: char) -> (white: bool)
    ensures
        white == is_white_space(c),
{
    c.is_whitespace()
}

} // verus!
