//! A game console: what it is told to do, and how the buttons of its joypad are asked for.
//!
//! The buttons are A, B, Select, Start, Up, Down, Left and Right, in this order.
use crate::bits::{above, not_below, reaches, HALF};
use vstd::prelude::*;

verus! {

/// What the console is told to do next.
#[derive(Clone, Copy, Debug, PartialEq, Eq, Structural)]
pub enum ConsoleAction {
    /// Run for one frame.
    Frame,
    /// Write `value` to the memory cell `address`.
    Poke { address: usize, value: u8 },
    /// Press the Start button.
    PressStart,
    /// Release the Start button.
    ReleaseStart,
    /// Nothing: the game is ready to be played.
    Ready,
}

/// Whether the network output `output` asks for its button.
pub open spec fn asks(output: u64) -> bool {
    not_below(output, HALF)
}

/// Tells whether the network output `output` asks for its button.
pub fn is_asking(output: u64) -> (a: bool)
    ensures
        a == asks(output),
{
    reaches(output, HALF)
}

/// Releases all buttons, as after every frame that a network has played.
pub fn release_buttons(buttons: &mut [bool; 8])
    ensures
        forall|i: int| 0 <= i < 8 ==> !#[trigger] final(buttons)@[i],
{
    for i in 0..8usize
        invariant
            buttons@.len() == 8,
            forall|j: int| 0 <= j < i ==> !#[trigger] buttons@[j],
    {
        buttons[i] = false;
    }
}

/// An output asks for its button exactly where it is a number from one half up.
pub proof fn buttons_are_asked_for_from_one_half_up(output: u64)
    ensures
        asks(output) <==> 0x3FE0_0000_0000_0000 <= output <= 0x7FF0_0000_0000_0000,
{
}

/// A greater output asks for whatever a smaller one asks for.
pub proof fn greater_outputs_ask_too(output: u64, greater: u64)
    requires
        above(greater, output),
        asks(output),
    ensures
        asks(greater),
{
}

} // verus!
