use vstd::prelude::*;
use rand::rngs::ThreadRng;
use rand::Rng;

verus! {

/// `rand::rngs::ThreadRng`, a handle on the generator of the calling thread. Nothing inside
/// it is visible here.
#[verifier::external_type_specification]
#[verifier::external_body]
pub struct ExThreadRng(ThreadRng);

/// `Clone` for `ThreadRng`: another handle on the same generator. Nothing is claimed of it.
pub assume_specification[ <ThreadRng as Clone>::clone ](rng: &ThreadRng) -> ThreadRng;

/// `rand::thread_rng`: a handle on the calling thread's generator. Nothing is claimed of it.
#[verifier::external_body]
pub(crate) fn thread_source() -> ThreadRng {
    rand::thread_rng()
}

/// `Rng::gen_range` on the half-open range `0..bound`: some number below `bound`. Which one
/// is a matter of chance, so only the range is claimed. The range must not be empty.
#[verifier::external_body]
pub(crate) fn pick_below(rng: &mut ThreadRng, bound: u8) -> (pick: u8)
    requires
        bound > 0,
    ensures
        pick < bound,
{
    rng.gen_range(0..bound)
}

} // verus!
