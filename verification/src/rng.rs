use rand::Rng;
use vstd::prelude::*;

verus! {

/// A value drawn by the random generator. Its field is private to this
/// module, so the only way to get one is `random_below`: a `Draw` always
/// holds what the generator gave.
pub struct Draw {
    value: u8,
}

impl View for Draw {
    type V = u8;

    closed spec fn view(&self) -> u8 {
        self.value
    }
}

impl Draw {
    /// The drawn value.
    pub fn value(&self) -> (v: u8)
        ensures
            v == self@,
    {
        self.value
    }
}

/// Calls `rand::thread_rng().gen_range(0..upper)`: a number drawn by the
/// thread-local generator, uniformly from `0..upper`, handed back as a
/// `Draw`. The contract states only the range; which number comes is
/// chance. `gen_range` panics on an empty range, which `requires` leaves out.
#[verifier::external_body]
pub(crate) fn random_below(upper: u8) -> (r: Draw)
    requires
        upper > 0,
    ensures
        r@ < upper,
{
    Draw { value: rand::thread_rng().gen_range(0..upper) }
}

} // verus!
