//! Tetris, run by a small engine of its own.
use super::console::{asks, is_asking};
use crate::tetris::{TetrisEngine, TetrisScenario, BOARD_SIZE};
use vstd::prelude::*;

verus! {

/// What the engine returns from the tick that ends the game.
pub const TICK_END: i32 = 2;

pub const ROT_CW: i32 = 0x10;

pub const ROT_ACW: i32 = 0x20;

pub const LEFT: i32 = 0x04;

pub const RIGHT: i32 = 0x08;

pub const DOWN: i32 = 0x02;

pub const UP: i32 = 0x01;

/// How many outputs the engine consumes, one for each action.
pub const OUTPUT_SIZE: usize = 6;

/// The actions, as a display shows them.
pub const OUTPUT_LABELS: [char; 6] = ['⟳', '⟲', '<', '>', 'v', '^'];

/// How a game begins.
#[derive(Clone, Copy, Debug, PartialEq, Eq, Structural)]
pub struct Opening {
    /// The seed that the engine is made with.
    pub seed: u16,
    /// The level that it is then set to.
    pub level: i32,
}

/// What the engine shows of a running game.
#[derive(Clone, Copy, Debug)]
pub struct Reading {
    /// The squares of the board, as the engine writes them.
    pub squares: [u64; 200],
    /// What the last tick returned.
    pub status: i32,
    /// How many points were made.
    pub points: i64,
    /// How many pieces were used.
    pub pieces: i64,
}

/// Whether the score of `points` points made with `pieces` pieces fits in its type.
pub open spec fn has_score(points: i64, pieces: i64) -> bool {
    &&& i64::MIN <= points * 256 <= i64::MAX
    &&& i64::MIN <= points * 256 + pieces <= i64::MAX
}

/// The engine.
pub struct CEngine;

impl TetrisEngine for CEngine {
    type Opening = Opening;

    type Reading = Reading;

    type Input = i32;

    open spec fn opening(seed: u16, level: u8) -> Opening {
        Opening { seed, level: level as i32 }
    }

    open spec fn output_count() -> usize {
        OUTPUT_SIZE
    }

    open spec fn shows_board(reading: Reading) -> bool {
        true
    }

    open spec fn squares(reading: Reading) -> Seq<u64> {
        reading.squares@
    }

    open spec fn takes(outputs: Seq<u64>) -> bool {
        true
    }

    open spec fn does(input: i32, outputs: Seq<u64>) -> bool {
        input == combined(outputs)
    }

    open spec fn shows_end(reading: Reading) -> bool {
        true
    }

    open spec fn has_ended(reading: Reading) -> bool {
        reading.status == TICK_END
    }

    open spec fn shows_score(reading: Reading) -> bool {
        has_score(reading.points, reading.pieces)
    }

    open spec fn points(reading: Reading) -> int {
        reading.points * 256 + reading.pieces
    }

    fn new_game(seed: u16, level: u8) -> (opening: Opening) {
        Opening { seed, level: level as i32 }
    }

    fn outputs() -> (n: usize) {
        OUTPUT_SIZE
    }

    fn can_sense(reading: &Reading) -> (can: bool) {
        true
    }

    fn sense(reading: &Reading) -> (board: Vec<u64>) {
        let mut board: Vec<u64> = Vec::new();
        for i in 0..BOARD_SIZE
            invariant
                board@ == reading.squares@.take(i as int),
        {
            board.push(reading.squares[i]);
            assert(board@ =~= reading.squares@.take(i + 1));
        }
        assert(reading.squares@.take(200) =~= reading.squares@);
        board
    }

    fn tick(outputs: &[u64]) -> (input: i32) {
        tick_input(outputs)
    }

    fn is_over(reading: &Reading) -> (over: bool) {
        is_over(reading.status)
    }

    fn can_score(reading: &Reading) -> (can: bool) {
        match reading.points.checked_mul(256) {
            Some(high) => high.checked_add(reading.pieces).is_some(),
            None => false,
        }
    }

    fn score(reading: &Reading) -> (s: i64) {
        score(reading.points, reading.pieces)
    }
}

/// A scenario in which `games` games start at level `level`, each with its own seed.
pub fn scenario(level: u8, games: usize) -> (s: TetrisScenario<CEngine>)
    ensures
        s.level == level,
        s.games == games,
        s.seed is None,
{
    TetrisScenario::new(level, games, None)
}

/// `action` where the `i`-th of `outputs` asks for it, and zero otherwise.
pub open spec fn flag(outputs: Seq<u64>, i: int, action: i32) -> i32 {
    if 0 <= i < outputs.len() && asks(outputs[i]) {
        action
    } else {
        0
    }
}

/// The actions that `outputs` asks for, added up.
pub open spec fn combined(outputs: Seq<u64>) -> int {
    flag(outputs, 0, ROT_CW) + flag(outputs, 1, ROT_ACW) + flag(outputs, 2, LEFT) + flag(
        outputs,
        3,
        RIGHT,
    ) + flag(outputs, 4, DOWN) + flag(outputs, 5, UP)
}

/// Returns `action` where the `i`-th of `outputs` asks for it.
fn raised(outputs: &[u64], i: usize, action: i32) -> (f: i32)
    ensures
        f == flag(outputs@, i as int, action),
{
    if i < outputs.len() && is_asking(outputs[i]) {
        action
    } else {
        0
    }
}

/// Combines the actions that `outputs` asks for into what the engine takes for a tick.
/// Outputs beyond the last action are ignored.
pub fn tick_input(outputs: &[u64]) -> (input: i32)
    ensures
        input == combined(outputs@),
{
    let clockwise: i32 = raised(outputs, 0, ROT_CW);
    let anticlockwise: i32 = raised(outputs, 1, ROT_ACW);
    let left: i32 = raised(outputs, 2, LEFT);
    let right: i32 = raised(outputs, 3, RIGHT);
    let down: i32 = raised(outputs, 4, DOWN);
    let up: i32 = raised(outputs, 5, UP);
    assert(clockwise | anticlockwise | left | right | down | up == clockwise + anticlockwise + left
        + right + down + up) by (bit_vector)
        requires
            clockwise == 0 || clockwise == 0x10,
            anticlockwise == 0 || anticlockwise == 0x20,
            left == 0 || left == 0x04,
            right == 0 || right == 0x08,
            down == 0 || down == 0x02,
            up == 0 || up == 0x01,
    ;
    clockwise | anticlockwise | left | right | down | up
}

/// Tells whether a tick that returned `status` ended the game.
pub fn is_over(status: i32) -> (over: bool)
    ensures
        over == (status == TICK_END),
{
    status == TICK_END
}

/// Scores a game in which `points` points were made with `pieces` pieces. Points come
/// first; pieces count among games with the same points.
pub fn score(points: i64, pieces: i64) -> (s: i64)
    requires
        has_score(points, pieces),
    ensures
        s == points * 256 + pieces,
{
    points * 256 + pieces
}

/// A game with more points scores higher, however many pieces were used, as long as that
/// is less than one point is worth.
pub proof fn points_come_first(points: int, pieces: int, more_points: int, other_pieces: int)
    requires
        points < more_points,
        0 <= pieces < 256,
        0 <= other_pieces < 256,
    ensures
        points * 256 + pieces < more_points * 256 + other_pieces,
{
}

/// Each action is part of the combined input exactly where its output asks for it, and
/// nothing else is.
pub proof fn actions_stay_apart(outputs: Seq<u64>)
    ensures
        combined(outputs) as i32 & ROT_CW == flag(outputs, 0, ROT_CW),
        combined(outputs) as i32 & ROT_ACW == flag(outputs, 1, ROT_ACW),
        combined(outputs) as i32 & LEFT == flag(outputs, 2, LEFT),
        combined(outputs) as i32 & RIGHT == flag(outputs, 3, RIGHT),
        combined(outputs) as i32 & DOWN == flag(outputs, 4, DOWN),
        combined(outputs) as i32 & UP == flag(outputs, 5, UP),
        0 <= combined(outputs) < 0x40,
{
    lemma_bits_apart(
        flag(outputs, 0, ROT_CW),
        flag(outputs, 1, ROT_ACW),
        flag(outputs, 2, LEFT),
        flag(outputs, 3, RIGHT),
        flag(outputs, 4, DOWN),
        flag(outputs, 5, UP),
        combined(outputs) as i32,
    );
}

/// Different bits do not get in each other's way.
proof fn lemma_bits_apart(a: i32, b: i32, c: i32, d: i32, e: i32, f: i32, input: i32)
    by (bit_vector)
    requires
        a == 0 || a == 0x10,
        b == 0 || b == 0x20,
        c == 0 || c == 0x04,
        d == 0 || d == 0x08,
        e == 0 || e == 0x02,
        f == 0 || f == 0x01,
        input == a + b + c + d + e + f,
    ensures
        input & 0x10 == a,
        input & 0x20 == b,
        input & 0x04 == c,
        input & 0x08 == d,
        input & 0x02 == e,
        input & 0x01 == f,
{
}

/// Each of the first six outputs that is a number from one half up sets its own bit, and
/// nothing else sets one.
pub proof fn outputs_set_their_bits(input: i32, outputs: Seq<u64>)
    requires
        CEngine::does(input, outputs),
    ensures
        ({
            let asked = |i: int|
                i < outputs.len() && 0x3FE0_0000_0000_0000 <= outputs[i] <= 0x7FF0_0000_0000_0000;
            &&& 0 <= input < 0x40
            &&& (input & 0x10 != 0) == asked(0)
            &&& (input & 0x20 != 0) == asked(1)
            &&& (input & 0x04 != 0) == asked(2)
            &&& (input & 0x08 != 0) == asked(3)
            &&& (input & 0x02 != 0) == asked(4)
            &&& (input & 0x01 != 0) == asked(5)
        }),
{
    actions_stay_apart(outputs);
    assert(combined(outputs) as i32 == input);
}

/// What the engine shows is passed on: its squares as they are, the end of the game where a
/// tick returned two, and a score of two hundred and fifty-six for each point and one for
/// each piece.
pub proof fn readings_are_passed_on(reading: Reading, outputs: Seq<u64>, seed: u16, level: u8)
    ensures
        CEngine::squares(reading) == reading.squares@,
        CEngine::shows_board(reading),
        CEngine::shows_end(reading),
        CEngine::has_ended(reading) <==> reading.status == 2,
        CEngine::points(reading) == 256 * reading.points + reading.pieces,
        CEngine::shows_score(reading) <==> (-0x8000_0000_0000_0000 <= 256 * reading.points
            <= 0x7FFF_FFFF_FFFF_FFFF && -0x8000_0000_0000_0000 <= 256 * reading.points
            + reading.pieces <= 0x7FFF_FFFF_FFFF_FFFF),
        CEngine::takes(outputs),
        CEngine::opening(seed, level).seed == seed,
        CEngine::opening(seed, level).level == level,
        CEngine::output_count() == 6,
{
}

} // verus!
