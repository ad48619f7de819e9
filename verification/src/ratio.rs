//! Numbers that are not whole.
use vstd::prelude::*;

verus! {

/// A number that a caller gets by dividing `num` by `den`.
#[derive(Clone, Copy, Debug, PartialEq, Eq, Structural)]
pub struct Ratio {
    pub num: i32,
    pub den: i32,
}

/// The quotient of `num` and `den`.
pub open spec fn quotient(num: int, den: int) -> Ratio {
    Ratio { num: num as i32, den: den as i32 }
}

/// A quotient holds the two numbers that it was made of, in their order.
pub proof fn quotients_hold_their_numbers(num: i32, den: i32)
    ensures
        quotient(num as int, den as int).num == num,
        quotient(num as int, den as int).den == den,
{
}

} // verus!
