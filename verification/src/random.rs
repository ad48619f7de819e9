//! The pseudo-random generator behind every draw.
use rand::{Rng, RngCore};
use vstd::prelude::*;

verus! {

/// What the generator adds to its state at each draw.
pub const STRIDE: u64 = 0x2d35_8dcc_aa6c_78a5;

/// What the generator blends its state with before multiplying.
pub const BLEND: u64 = 0x8bb8_4b93_962e_acc9;

/// The state after one draw from `state`.
pub open spec fn next_state(state: u64) -> u64 {
    ((state + STRIDE) % 0x1_0000_0000_0000_0000) as u64
}

/// The 64-bit word that a draw leaving the generator in `state` yields: the two
/// halves of `state` times its blend, exclusive-ored.
pub open spec fn word(state: u64) -> u64 {
    let product = (state * (state ^ BLEND)) as u128;
    (product as u64) ^ ((product >> 64) as u64)
}

/// The state after `draws` draws from `state`.
pub open spec fn state_after(state: u64, draws: nat) -> u64
    decreases draws,
{
    if draws == 0 {
        state
    } else {
        next_state(state_after(state, (draws - 1) as nat))
    }
}

/// Byte `k` of the words that a generator in state `state` yields, each word
/// lowest byte first.
pub open spec fn stream_byte(state: u64, k: nat) -> u8 {
    (word(state_after(state, k / 8 + 1)) >> (8 * (k % 8)) as u32) as u8
}

/// A small generator whose whole state is one 64-bit counter.
pub struct WyRng {
    pub state: u64,
}

impl WyRng {
    /// A generator that starts at `state`.
    pub fn seeded(state: u64) -> (rng: Self)
        ensures
            rng.state == state,
    {
        WyRng { state }
    }
}

impl RngCore for WyRng {
    fn next_u32(&mut self) -> (r: u32)
        ensures
            final(self).state == next_state(old(self).state),
            r == word(final(self).state) as u32,
    {
        self.next_u64() as u32
    }

    fn next_u64(&mut self) -> (r: u64)
        ensures
            final(self).state == next_state(old(self).state),
            r == word(final(self).state),
    {
        self.state = self.state.wrapping_add(STRIDE);
        let blended: u64 = self.state ^ BLEND;
        let state: u64 = self.state;
        assert(state * blended <= u128::MAX) by (nonlinear_arith)
            requires
                state <= u64::MAX,
                blended <= u64::MAX,
        ;
        let product: u128 = state as u128 * blended as u128;
        (product as u64) ^ ((product >> 64) as u64)
    }

    /// Writes drawn words, lowest byte first, until `dst` is full.
    fn fill_bytes(&mut self, dst: &mut [u8])
        ensures
            final(dst)@.len() == old(dst)@.len(),
            forall|k: int|
                #![trigger final(dst)@[k]]
                0 <= k < old(dst)@.len() ==> final(dst)@[k] == stream_byte(old(self).state, k as nat),
            final(self).state == state_after(old(self).state, (old(dst)@.len() + 7) as nat / 8),
    {
        let ghost start = self.state;
        let mut drawn: u64 = 0;
        let mut done: usize = 0;
        while done < dst.len()
            invariant
                done <= dst@.len(),
                dst@.len() == old(dst)@.len(),
                start == old(self).state,
                self.state == state_after(start, (done + 7) as nat / 8),
                done % 8 != 0 ==> drawn == word(self.state),
                forall|k: int|
                    #![trigger dst@[k]]
                    0 <= k < done ==> dst@[k] == stream_byte(start, k as nat),
            decreases dst.len() - done,
        {
            if done % 8 == 0 {
                drawn = self.next_u64();
            }
            assert(self.state == state_after(start, (done as nat) / 8 + 1));
            let from: u32 = 8 * (done % 8) as u32;
            dst[done] = (drawn >> from) as u8;
            done = done + 1;
        }
    }
}

/// What `random_range(0..bound)` of the `rand` crate draws from a generator in
/// state `state`, and the state that it leaves the generator in.
pub uninterp spec fn range_draw(state: u64, bound: usize) -> (usize, u64);

/// Calls `rand::Rng::random_range` on the range `0..bound`.
///
/// Claimed of it: the draw lies below `bound`, and both the draw and the state
/// that the generator is left in depend on nothing but the state before the call
/// and on `bound`. Which draw it is, is left to its name.
#[verifier::external_body]
pub(crate) fn random_range(rng: &mut WyRng, bound: usize) -> (drawn: usize)
    requires
        bound > 0,
    ensures
        drawn < bound,
        (drawn, final(rng).state) == range_draw(old(rng).state, bound),
{
    rng.random_range(0..bound)
}

/// Drawing `m` and then `n` times is the same as drawing `m + n` times.
pub proof fn draws_add_up(state: u64, m: nat, n: nat)
    ensures
        state_after(state, m + n) == state_after(state_after(state, m), n),
    decreases n,
{
    if n > 0 {
        draws_add_up(state, m, (n - 1) as nat);
    }
}

/// The bytes from the `m`-th word on are those of a generator that has drawn `m` words.
pub proof fn streams_join(state: u64, m: nat, k: nat)
    ensures
        stream_byte(state, 8 * m + k) == stream_byte(state_after(state, m), k),
{
    draws_add_up(state, m, k / 8 + 1);
    assert((8 * m + k) / 8 == m + k / 8);
    assert((8 * m + k) % 8 == k % 8);
}

/// A draw moves the state on by the stride, around the end of its range.
pub proof fn draws_move_the_state_on(state: u64)
    ensures
        next_state(state) == state + 0x2d35_8dcc_aa6c_78a5 || next_state(state)
            + 0x1_0000_0000_0000_0000 == state + 0x2d35_8dcc_aa6c_78a5,
{
}

/// A word is the exclusive or of the two halves of the product of the state and its blend.
pub proof fn words_fold_the_product(state: u64, low: u64, high: u64)
    requires
        low + high * 0x1_0000_0000_0000_0000 == state * (state ^ 0x8bb8_4b93_962e_acc9),
    ensures
        word(state) == low ^ high,
{
    let blended = state ^ 0x8bb8_4b93_962e_acc9;
    assert(0 <= state * blended <= u128::MAX) by (nonlinear_arith)
        requires
            0 <= state <= u64::MAX,
            0 <= blended <= u64::MAX,
    ;
    let product = (state * blended) as u128;
    assert(product as u64 == low && (product >> 64) as u64 == high) by (bit_vector)
        requires
            product == low + high * 0x1_0000_0000_0000_0000,
    ;
}

/// The state after no draw is the state itself, and after one draw the next.
pub proof fn draws_are_counted(state: u64)
    ensures
        state_after(state, 0) == state,
        state_after(state, 1) == next_state(state),
{
    reveal_with_fuel(state_after, 2);
}

/// Eight bytes in a row, the first one lowest, make up the word that they were cut from.
pub proof fn bytes_make_up_words(state: u64, m: nat)
    ensures
        ({
            let byte = |k: nat| stream_byte(state, 8 * m + k);
            byte(0) + 0x100 * byte(1) + 0x1_0000 * byte(2) + 0x100_0000 * byte(3) + 0x1_0000_0000
                * byte(4) + 0x100_0000_0000 * byte(5) + 0x1_0000_0000_0000 * byte(6)
                + 0x100_0000_0000_0000 * byte(7) == word(state_after(state, m + 1))
        }),
{
    let w = word(state_after(state, m + 1));
    assert forall|k: nat| k < 8 implies #[trigger] stream_byte(state, 8 * m + k) == (w >> (8
        * k) as u32) as u8 by {
        assert((8 * m + k) / 8 == m);
        assert((8 * m + k) % 8 == k);
    }
    assert(w >> 0u32 == w) by (bit_vector);
    assert(((w >> 0u32) as u8) + 0x100 * ((w >> 8u32) as u8) + 0x1_0000 * ((w >> 16u32) as u8)
        + 0x100_0000 * ((w >> 24u32) as u8) + 0x1_0000_0000 * ((w >> 32u32) as u8)
        + 0x100_0000_0000 * ((w >> 40u32) as u8) + 0x1_0000_0000_0000 * ((w >> 48u32) as u8)
        + 0x100_0000_0000_0000 * ((w >> 56u32) as u8) == w) by (bit_vector);
    assert(stream_byte(state, 8 * m + 0) == (w >> 0u32) as u8);
    assert(stream_byte(state, 8 * m + 1) == (w >> 8u32) as u8);
    assert(stream_byte(state, 8 * m + 2) == (w >> 16u32) as u8);
    assert(stream_byte(state, 8 * m + 3) == (w >> 24u32) as u8);
    assert(stream_byte(state, 8 * m + 4) == (w >> 32u32) as u8);
    assert(stream_byte(state, 8 * m + 5) == (w >> 40u32) as u8);
    assert(stream_byte(state, 8 * m + 6) == (w >> 48u32) as u8);
    assert(stream_byte(state, 8 * m + 7) == (w >> 56u32) as u8);
}

} // verus!
