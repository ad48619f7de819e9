//! Tetris, run by an emulated console.
use super::console::{asks, is_asking, ConsoleAction};
use crate::bits::{NEG_ONE, ONE};
use crate::tetris::{TetrisEngine, TetrisScenario, BOARD_SIZE};
use vstd::prelude::*;

verus! {

/// Where the column of the falling piece is kept.
pub const X: usize = 0x40;

/// Where the row of the falling piece is kept.
pub const Y: usize = 0x41;

/// Where the kind of the falling piece and its orientation are kept.
pub const ID: usize = 0x42;

/// Where the console tells that it has started up.
pub const STARTED: usize = 0xc3;

/// Where the game tells which screen it shows.
pub const GAME_MODE: usize = 0xc0;

/// The screen on which the game is played.
pub const PLAYING: u8 = 4;

/// Where the game tells that it is over.
pub const GAME_OVER: usize = 0x58;

/// Where the low half of the seed is kept.
pub const SEED_L: usize = 0x17;

/// Where the high half of the seed is kept.
pub const SEED_R: usize = 0x18;

/// Where the score is kept, lowest byte first.
pub const SCORE_1: usize = 0x53;

pub const SCORE_2: usize = 0x54;

pub const SCORE_3: usize = 0x55;

/// Where the number of pieces is kept.
pub const PIECE_COUNT: usize = 0x1a;

/// Where the squares of the board begin, row by row from the top.
pub const BOARD_OFFSET: usize = 0x400;

/// What a free square holds.
pub const FREE: u8 = 0xef;

/// Where the level is kept.
pub const LEVEL: usize = 0x64;

/// The highest level that a game can start at.
pub const MAX_LEVEL: u8 = 19;

/// The squares that each piece covers in each of its orientations, as rows and columns
/// from two rows above and two columns to the left of where the piece is.
pub const PIECE_SHAPE: [[(u8, u8); 4]; 19] = [
    [(3, 2), (4, 1), (4, 2), (4, 3)],  // T_UP
    [(1, 2), (2, 2), (2, 3), (3, 2)],  // T_RIGHT
    [(2, 1), (2, 2), (2, 3), (3, 2)],  // T_DOWN
    [(1, 2), (2, 1), (2, 2), (3, 2)],  // T_LEFT
    [(1, 2), (2, 2), (3, 1), (3, 2)],  // J_UP
    [(2, 1), (3, 1), (3, 2), (3, 3)],  // J_RIGHT
    [(1, 2), (1, 3), (2, 2), (3, 2)],  // J_DOWN
    [(2, 1), (2, 2), (2, 3), (3, 3)],  // J_LEFT
    [(2, 1), (2, 2), (3, 2), (3, 3)],  // Z_HORIZONTAL
    [(1, 3), (2, 2), (2, 3), (3, 2)],  // Z_VERTICAL
    [(2, 1), (2, 2), (3, 1), (3, 2)],  // O
    [(2, 2), (2, 3), (3, 1), (3, 2)],  // S_HORIZONTAL
    [(1, 2), (2, 2), (2, 3), (3, 3)],  // S_VERTICAL
    [(1, 2), (2, 2), (3, 2), (3, 3)],  // L_UP
    [(2, 1), (2, 2), (2, 3), (3, 1)],  // L_RIGHT
    [(1, 1), (1, 2), (2, 2), (3, 2)],  // L_DOWN
    [(2, 3), (3, 1), (3, 2), (3, 3)],  // L_LEFT
    [(0, 2), (1, 2), (2, 2), (3, 2)],  // I_VERTICAL
    [(3, 0), (3, 1), (3, 2), (3, 3)],  // I_HORIZONTAL
];

/// The buttons, as a display shows them.
pub const OUTPUT_LABELS: [char; 8] = ['a', 'b', 's', 'S', '^', 'v', '<', '>'];

/// A scenario of one game a time that starts at level `level` from the seed `seed`, or
/// from a new one for each game where that is zero.
pub fn scenario(seed: u16, level: u8) -> (s: TetrisScenario<NesEngine>)
    ensures
        s.level == level,
        s.games == 1,
        s.seed == (if seed == 0 {
            None
        } else {
            Some(seed)
        }),
{
    TetrisScenario::new(
        level,
        1,
        if seed == 0 {
            None
        } else {
            Some(seed)
        },
    )
}

/// The square that the `k`-th part of the falling piece covers, where that is on the
/// board.
pub open spec fn covered_square(ram: Seq<u8>, k: int) -> Option<int> {
    let (shape_row, shape_col) = PIECE_SHAPE@[ram[ID as int] as int]@[k];
    let row = shape_row + ram[Y as int] - 2;
    let col = shape_col + ram[X as int] - 2;
    if row >= 0 && col >= 0 && row * 10 + col < BOARD_SIZE {
        Some(row * 10 + col)
    } else {
        None
    }
}

/// Whether a part of the falling piece covers the square `i`. There is no piece where
/// its kind is unknown.
pub open spec fn is_covered(ram: Seq<u8>, i: int) -> bool {
    ram[ID as int] < 19 && exists|k: int| 0 <= k < 4 && #[trigger] covered_square(ram, k) == Some(i)
}

/// What a network sees of the square `i`: minus one for the falling piece, one for a
/// placed one and zero for a free square.
pub open spec fn sensed(ram: Seq<u8>, i: int) -> int {
    if is_covered(ram, i) {
        -1
    } else {
        placed(ram, i)
    }
}

/// One where a placed piece covers the square `i` and zero otherwise.
pub open spec fn placed(ram: Seq<u8>, i: int) -> int {
    if ram[BOARD_OFFSET + i] != FREE {
        1
    } else {
        0
    }
}

/// Whether the rows and columns of the falling piece fit in a byte.
pub open spec fn piece_fits(ram: Seq<u8>) -> bool {
    ram[ID as int] < 19 ==> forall|k: int|
        0 <= k < 4 ==> {
            let (row, col) = #[trigger] PIECE_SHAPE@[ram[ID as int] as int]@[k];
            row + ram[Y as int] <= 255 && col + ram[X as int] <= 255
        }
}

/// Tells whether [`sense_board`] can be asked about `ram`.
pub fn can_sense(ram: &[u8]) -> (can: bool)
    ensures
        can == (ram@.len() >= BOARD_OFFSET + BOARD_SIZE && piece_fits(ram@)),
{
    if ram.len() < BOARD_OFFSET + BOARD_SIZE {
        return false;
    }
    if ram[ID] < 19 {
        for k in 0..4usize
            invariant
                ram@.len() >= BOARD_OFFSET + BOARD_SIZE,
                ram@[ID as int] < 19,
                forall|j: int|
                    0 <= j < k ==> {
                        let (row, col) = #[trigger] PIECE_SHAPE@[ram@[ID as int] as int]@[j];
                        row + ram@[Y as int] <= 255 && col + ram@[X as int] <= 255
                    },
        {
            let (row, col) = PIECE_SHAPE[ram[ID] as usize][k];
            if row as u16 + ram[Y] as u16 > 255 || col as u16 + ram[X] as u16 > 255 {
                assert(!piece_fits(ram@));
                return false;
            }
        }
    }
    true
}

/// Reads the board off the memory `ram`, row by row from the top.
pub fn sense_board(ram: &[u8]) -> (board: Vec<i8>)
    requires
        ram@.len() >= BOARD_OFFSET + BOARD_SIZE,
        piece_fits(ram@),
    ensures
        board@.len() == BOARD_SIZE,
        forall|i: int| 0 <= i < BOARD_SIZE ==> #[trigger] board@[i] == sensed(ram@, i),
{
    let mut board: Vec<i8> = Vec::new();
    for i in 0..BOARD_SIZE
        invariant
            ram@.len() >= BOARD_OFFSET + BOARD_SIZE,
            board@.len() == i,
            forall|j: int|
                0 <= j < i ==> #[trigger] board@[j] == placed(ram@, j),
    {
        board.push(
            if ram[BOARD_OFFSET + i] != FREE {
                1
            } else {
                0
            },
        );
    }
    if ram[ID] < 19 {
        for k in 0..4usize
            invariant
                ram@.len() >= BOARD_OFFSET + BOARD_SIZE,
                ram@[ID as int] < 19,
                piece_fits(ram@),
                board@.len() == BOARD_SIZE,
                forall|j: int|
                    0 <= j < BOARD_SIZE ==> #[trigger] board@[j] == (if exists|m: int|
                        0 <= m < k && #[trigger] covered_square(ram@, m) == Some(j) {
                        -1
                    } else {
                        placed(ram@, j)
                    }),
        {
            let ghost before = board@;
            let (shape_row, shape_col) = PIECE_SHAPE[ram[ID] as usize][k];
            let row: u8 = shape_row + ram[Y];
            let col: u8 = shape_col + ram[X];
            if row >= 2 && col >= 2 {
                let index: usize = (row - 2) as usize * 10 + (col - 2) as usize;
                if index < BOARD_SIZE {
                    board.set(index, -1);
                }
            }
            assert forall|j: int| 0 <= j < BOARD_SIZE implies #[trigger] board@[j] == (
            if exists|m: int| 0 <= m < k + 1 && #[trigger] covered_square(ram@, m) == Some(j) {
                -1
            } else {
                placed(ram@, j)
            }) by {
                let here = covered_square(ram@, k as int) == Some(j);
                let earlier = exists|m: int|
                    0 <= m < k && #[trigger] covered_square(ram@, m) == Some(j);
                assert((exists|m: int|
                    0 <= m < k + 1 && #[trigger] covered_square(ram@, m) == Some(j)) <==> (earlier
                    || here)) by {
                    if earlier {
                        let m = choose|m: int|
                            0 <= m < k && #[trigger] covered_square(ram@, m) == Some(j);
                        assert(0 <= m < k + 1);
                    }
                }
                assert(board@[j] == (if here {
                    -1i8
                } else {
                    before[j]
                }));
            }
        }
    }
    board
}

/// The score that `ram` holds: points, lowest byte first, above the number of pieces.
pub open spec fn score_of(ram: Seq<u8>) -> int {
    ram[PIECE_COUNT as int] + 0x100 * ram[SCORE_1 as int] + 0x1_0000 * ram[SCORE_2 as int]
        + 0x100_0000 * ram[SCORE_3 as int]
}

/// Reads the score off the memory `ram`.
pub fn nes_score(ram: &[u8]) -> (s: u64)
    requires
        ram@.len() > SCORE_3,
    ensures
        s == score_of(ram@),
{
    let pieces: u64 = ram[PIECE_COUNT] as u64;
    let low: u64 = ram[SCORE_1] as u64;
    let middle: u64 = ram[SCORE_2] as u64;
    let high: u64 = ram[SCORE_3] as u64;
    assert((low << 8) | (middle << 16) | (high << 24) | pieces == pieces + 0x100 * low + 0x1_0000
        * middle + 0x100_0000 * high) by (bit_vector)
        requires
            pieces <= 255,
            low <= 255,
            middle <= 255,
            high <= 255,
    ;
    (low << 8) | (middle << 16) | (high << 24) | pieces
}

/// Whether button `i` is one that a network plays with. It has no use for Select and
/// Start.
pub open spec fn is_playable(i: int) -> bool {
    i != 2 && i != 3
}

/// Presses the buttons that `outputs` asks for and releases the others that it has a
/// say in.
pub fn press_buttons(buttons: &mut [bool; 8], outputs: &[u64])
    requires
        outputs@.len() <= 8,
    ensures
        forall|i: int|
            0 <= i < 8 ==> #[trigger] final(buttons)@[i] == (if i < outputs@.len() && is_playable(
                i,
            ) {
                asks(outputs@[i])
            } else {
                old(buttons)@[i]
            }),
{
    for i in 0..outputs.len()
        invariant
            outputs@.len() <= 8,
            buttons@.len() == 8,
            forall|j: int|
                0 <= j < 8 ==> #[trigger] buttons@[j] == (if j < i && is_playable(j) {
                    asks(outputs@[j])
                } else {
                    old(buttons)@[j]
                }),
    {
        if i != 2 && i != 3 {
            buttons[i] = is_asking(outputs[i]);
        }
    }
}

/// Tells whether the game is over.
pub fn is_over(ram: &[u8]) -> (over: bool)
    requires
        ram@.len() > GAME_OVER,
    ensures
        over == (ram@[GAME_OVER as int] != 0),
{
    ram[GAME_OVER] != 0
}

/// How far a console has got on the way to a game.
#[derive(Clone, Copy, Debug, PartialEq, Eq, Structural)]
pub enum Phase {
    /// It is starting up.
    Starting,
    /// It has started up and shows no screen yet.
    Blank,
    /// It shows a screen, and Start is up.
    Screen,
    /// Start was just pressed.
    Pressed,
    /// Start has been down for a frame.
    Held,
    /// Start was just released.
    Released,
    /// The game is on, and the low half of the seed has been written.
    SeededLow,
    /// Both halves of the seed have been written.
    Seeded,
    /// The level has been written: the game can be played.
    Playable,
}

/// The low half of `seed`.
pub open spec fn low_half(seed: u16) -> u8 {
    (seed % 256) as u8
}

/// The high half of `seed`.
pub open spec fn high_half(seed: u16) -> u8 {
    (seed / 256) as u8
}

/// The level that a game asked to start at `level` starts at.
pub open spec fn start_level(level: u8) -> u8 {
    if level < MAX_LEVEL {
        level
    } else {
        MAX_LEVEL
    }
}

/// What a console in the phase `phase` whose memory holds `ram` is told to do, and the
/// phase that it is in afterwards.
pub open spec fn boot_step(phase: Phase, ram: Seq<u8>, seed: u16, level: u8) -> (
    Phase,
    ConsoleAction,
) {
    match phase {
        Phase::Starting => if ram[STARTED as int] == 0 {
            (Phase::Starting, ConsoleAction::Frame)
        } else {
            (Phase::Blank, ConsoleAction::Poke { address: STARTED, value: 0 })
        },
        Phase::Blank => if ram[GAME_MODE as int] == 0 {
            (Phase::Blank, ConsoleAction::Frame)
        } else {
            screen_step(ram, seed)
        },
        Phase::Screen => screen_step(ram, seed),
        Phase::Pressed => (Phase::Held, ConsoleAction::Frame),
        Phase::Held => (Phase::Released, ConsoleAction::ReleaseStart),
        Phase::Released => (Phase::Screen, ConsoleAction::Frame),
        Phase::SeededLow => (
            Phase::Seeded,
            ConsoleAction::Poke { address: SEED_R, value: high_half(seed) },
        ),
        Phase::Seeded => (
            Phase::Playable,
            ConsoleAction::Poke { address: LEVEL, value: start_level(level) },
        ),
        Phase::Playable => (Phase::Playable, ConsoleAction::Ready),
    }
}

/// What a console that shows a screen is told to do: to go on to the next one until it
/// shows the game, and then to take the seed.
pub open spec fn screen_step(ram: Seq<u8>, seed: u16) -> (Phase, ConsoleAction) {
    if ram[GAME_MODE as int] != PLAYING {
        (Phase::Pressed, ConsoleAction::PressStart)
    } else {
        (Phase::SeededLow, ConsoleAction::Poke { address: SEED_L, value: low_half(seed) })
    }
}

/// The way of a console from power-up to a game.
#[derive(Clone, Copy, Debug)]
pub struct Boot {
    /// The seed that the game gets.
    pub seed: u16,
    /// The level that was asked for.
    pub level: u8,
    /// How far the console has got.
    pub phase: Phase,
}

impl Boot {
    /// The way to a game with the seed `seed` that starts at level `level`.
    pub fn new(seed: u16, level: u8) -> (b: Self)
        ensures
            b.seed == seed,
            b.level == level,
            b.phase == Phase::Starting,
    {
        Boot { seed, level, phase: Phase::Starting }
    }

    /// Tells what the console, whose memory now holds `ram`, has to do next.
    pub fn advance(&mut self, ram: &[u8]) -> (action: ConsoleAction)
        requires
            ram@.len() > STARTED,
        ensures
            (final(self).phase, action) == boot_step(
                old(self).phase,
                ram@,
                old(self).seed,
                old(self).level,
            ),
            final(self).seed == old(self).seed,
            final(self).level == old(self).level,
    {
        match self.phase {
            Phase::Starting => if ram[STARTED] == 0 {
                ConsoleAction::Frame
            } else {
                self.phase = Phase::Blank;
                ConsoleAction::Poke { address: STARTED, value: 0 }
            },
            Phase::Blank => if ram[GAME_MODE] == 0 {
                ConsoleAction::Frame
            } else {
                self.leave_screen(ram)
            },
            Phase::Screen => self.leave_screen(ram),
            Phase::Pressed => {
                self.phase = Phase::Held;
                ConsoleAction::Frame
            },
            Phase::Held => {
                self.phase = Phase::Released;
                ConsoleAction::ReleaseStart
            },
            Phase::Released => {
                self.phase = Phase::Screen;
                ConsoleAction::Frame
            },
            Phase::SeededLow => {
                self.phase = Phase::Seeded;
                ConsoleAction::Poke { address: SEED_R, value: (self.seed / 256) as u8 }
            },
            Phase::Seeded => {
                self.phase = Phase::Playable;
                ConsoleAction::Poke {
                    address: LEVEL,
                    value: if self.level < MAX_LEVEL {
                        self.level
                    } else {
                        MAX_LEVEL
                    },
                }
            },
            Phase::Playable => ConsoleAction::Ready,
        }
    }

    /// Goes on from a screen.
    fn leave_screen(&mut self, ram: &[u8]) -> (action: ConsoleAction)
        requires
            ram@.len() > GAME_MODE,
        ensures
            (final(self).phase, action) == screen_step(ram@, old(self).seed),
            final(self).seed == old(self).seed,
            final(self).level == old(self).level,
    {
        if ram[GAME_MODE] != PLAYING {
            self.phase = Phase::Pressed;
            ConsoleAction::PressStart
        } else {
            self.phase = Phase::SeededLow;
            ConsoleAction::Poke { address: SEED_L, value: (self.seed % 256) as u8 }
        }
    }
}

/// The pattern of minus one, zero or one.
pub open spec fn pattern(n: int) -> u64 {
    if n < 0 {
        NEG_ONE
    } else if n == 0 {
        0
    } else {
        ONE
    }
}

/// Whether `input` holds down exactly the buttons that `outputs` asks for.
pub open spec fn holds_down(input: [bool; 8], outputs: Seq<u64>) -> bool {
    forall|i: int|
        0 <= i < 8 ==> #[trigger] input@[i] == (i < outputs.len() && is_playable(i) && asks(
            outputs[i],
        ))
}

/// The engine: a console, read through its memory.
pub struct NesEngine;

impl TetrisEngine for NesEngine {
    type Opening = Boot;

    type Reading = Vec<u8>;

    type Input = [bool; 8];

    open spec fn opening(seed: u16, level: u8) -> Boot {
        Boot { seed, level, phase: Phase::Starting }
    }

    open spec fn output_count() -> usize {
        8
    }

    open spec fn shows_board(reading: Vec<u8>) -> bool {
        reading@.len() >= BOARD_OFFSET + BOARD_SIZE && piece_fits(reading@)
    }

    open spec fn squares(reading: Vec<u8>) -> Seq<u64> {
        Seq::new(BOARD_SIZE as nat, |i: int| pattern(sensed(reading@, i)))
    }

    open spec fn takes(outputs: Seq<u64>) -> bool {
        outputs.len() <= 8
    }

    open spec fn does(input: [bool; 8], outputs: Seq<u64>) -> bool {
        holds_down(input, outputs)
    }

    open spec fn shows_end(reading: Vec<u8>) -> bool {
        reading@.len() > GAME_OVER
    }

    open spec fn has_ended(reading: Vec<u8>) -> bool {
        reading@[GAME_OVER as int] != 0
    }

    open spec fn shows_score(reading: Vec<u8>) -> bool {
        reading@.len() > SCORE_3
    }

    open spec fn points(reading: Vec<u8>) -> int {
        score_of(reading@)
    }

    fn new_game(seed: u16, level: u8) -> (opening: Boot) {
        Boot::new(seed, level)
    }

    fn outputs() -> (n: usize) {
        8
    }

    fn can_sense(reading: &Vec<u8>) -> (can: bool) {
        can_sense(reading.as_slice())
    }

    fn sense(reading: &Vec<u8>) -> (board: Vec<u64>) {
        let squares = sense_board(reading.as_slice());
        let mut board: Vec<u64> = Vec::new();
        for i in 0..BOARD_SIZE
            invariant
                squares@.len() == BOARD_SIZE,
                forall|j: int|
                    0 <= j < BOARD_SIZE ==> #[trigger] squares@[j] == sensed(reading@, j),
                board@.len() == i,
                forall|j: int|
                    0 <= j < i ==> #[trigger] board@[j] == pattern(sensed(reading@, j)),
        {
            let n: i8 = squares[i];
            board.push(
                if n < 0 {
                    NEG_ONE
                } else if n == 0 {
                    0
                } else {
                    ONE
                },
            );
        }
        assert(board@ =~= Self::squares(*reading));
        board
    }

    fn tick(outputs: &[u64]) -> (input: [bool; 8]) {
        let mut buttons: [bool; 8] = [false; 8];
        press_buttons(&mut buttons, outputs);
        buttons
    }

    fn is_over(reading: &Vec<u8>) -> (over: bool) {
        is_over(reading.as_slice())
    }

    fn can_score(reading: &Vec<u8>) -> (can: bool) {
        reading.len() > SCORE_3
    }

    fn score(reading: &Vec<u8>) -> (s: i64) {
        nes_score(reading.as_slice()) as i64
    }
}

/// Points come first: a memory that holds more of them scores higher, whatever the number
/// of pieces.
pub proof fn points_come_first(ram: Seq<u8>, other: Seq<u8>)
    requires
        ram.len() > SCORE_3,
        other.len() > SCORE_3,
        points_of(ram) < points_of(other),
    ensures
        score_of(ram) < score_of(other),
{
}

/// The points that `ram` holds.
pub open spec fn points_of(ram: Seq<u8>) -> int {
    ram[SCORE_1 as int] + 0x100 * ram[SCORE_2 as int] + 0x1_0000 * ram[SCORE_3 as int]
}

/// The two halves of a seed make up the seed.
pub proof fn halves_make_up_the_seed(seed: u16)
    ensures
        low_half(seed) + 256 * high_half(seed) == seed,
{
}

/// Once the game is on, a console is told the seed and the level, and then that it is
/// ready, whatever its memory holds meanwhile.
pub proof fn games_are_set_up(
    phase: Phase,
    on: Seq<u8>,
    second: Seq<u8>,
    third: Seq<u8>,
    last: Seq<u8>,
    seed: u16,
    level: u8,
)
    requires
        phase == Phase::Blank || phase == Phase::Screen,
        on[GAME_MODE as int] == PLAYING,
    ensures
        ({
            let (after_first, a) = boot_step(phase, on, seed, level);
            let (after_second, b) = boot_step(after_first, second, seed, level);
            let (after_third, c) = boot_step(after_second, third, seed, level);
            let (_, d) = boot_step(after_third, last, seed, level);
            &&& a == (ConsoleAction::Poke { address: SEED_L, value: low_half(seed) })
            &&& b == (ConsoleAction::Poke { address: SEED_R, value: high_half(seed) })
            &&& c == (ConsoleAction::Poke { address: LEVEL, value: start_level(level) })
            &&& d == ConsoleAction::Ready
        }),
{
}

/// A console is told that it is ready only in the last phase, and it gets there only after
/// the level was written.
pub proof fn ready_comes_last(phase: Phase, ram: Seq<u8>, seed: u16, level: u8)
    ensures
        boot_step(phase, ram, seed, level).1 == ConsoleAction::Ready <==> phase == Phase::Playable,
        phase != Phase::Playable && boot_step(phase, ram, seed, level).0 == Phase::Playable
            ==> boot_step(phase, ram, seed, level).1 == (ConsoleAction::Poke {
            address: LEVEL,
            value: start_level(level),
        }),
{
}

/// Start is pressed only to be released after exactly one frame, and another frame passes
/// before the next screen is looked at.
pub proof fn start_is_held_for_a_frame(
    phase: Phase,
    ram: Seq<u8>,
    second: Seq<u8>,
    third: Seq<u8>,
    fourth: Seq<u8>,
    seed: u16,
    level: u8,
)
    requires
        boot_step(phase, ram, seed, level).1 == ConsoleAction::PressStart,
    ensures
        ({
            let (pressed, _) = boot_step(phase, ram, seed, level);
            let (held, b) = boot_step(pressed, second, seed, level);
            let (released, c) = boot_step(held, third, seed, level);
            let (screen, d) = boot_step(released, fourth, seed, level);
            &&& b == ConsoleAction::Frame
            &&& c == ConsoleAction::ReleaseStart
            &&& d == ConsoleAction::Frame
            &&& screen == Phase::Screen
        }),
{
}

/// A piece covers a square where one of its four parts does.
proof fn lemma_four_parts(ram: Seq<u8>, i: int)
    ensures
        is_covered(ram, i) <==> ram[0x42] < 19 && (covered_square(ram, 0) == Some(i)
            || covered_square(ram, 1) == Some(i) || covered_square(ram, 2) == Some(i)
            || covered_square(ram, 3) == Some(i)),
{
    if is_covered(ram, i) {
        let k = choose|k: int| 0 <= k < 4 && #[trigger] covered_square(ram, k) == Some(i);
        assert(k == 0 || k == 1 || k == 2 || k == 3);
    }
}

/// A network sees the falling piece as minus one on exactly the squares that its parts lie
/// on, in each of its orientations, moved by where it is; parts above or to the left of the
/// board are not seen. Everywhere else it sees one where the memory holds anything but a free
/// square, and zero where it holds one.
pub proof fn pieces_show_where_they_lie(ram: Seq<u8>, i: int)
    requires
        ram.len() >= 0x4c8,
        0 <= i < 200,
    ensures
        ({
            let part = |row: int, col: int|
                ram[0x41] + row >= 2 && ram[0x40] + col >= 2 && i == (ram[0x41] + row - 2) * 10 + (
                ram[0x40] + col - 2);
            let piece = sensed(ram, i) == -1;
            &&& ram[0x42] == 0 ==> piece == (part(3, 2) || part(4, 1) || part(4, 2) || part(4, 3))
            &&& ram[0x42] == 1 ==> piece == (part(1, 2) || part(2, 2) || part(2, 3) || part(3, 2))
            &&& ram[0x42] == 2 ==> piece == (part(2, 1) || part(2, 2) || part(2, 3) || part(3, 2))
            &&& ram[0x42] == 3 ==> piece == (part(1, 2) || part(2, 1) || part(2, 2) || part(3, 2))
            &&& ram[0x42] == 4 ==> piece == (part(1, 2) || part(2, 2) || part(3, 1) || part(3, 2))
            &&& ram[0x42] == 5 ==> piece == (part(2, 1) || part(3, 1) || part(3, 2) || part(3, 3))
            &&& ram[0x42] == 6 ==> piece == (part(1, 2) || part(1, 3) || part(2, 2) || part(3, 2))
            &&& ram[0x42] == 7 ==> piece == (part(2, 1) || part(2, 2) || part(2, 3) || part(3, 3))
            &&& ram[0x42] == 8 ==> piece == (part(2, 1) || part(2, 2) || part(3, 2) || part(3, 3))
            &&& ram[0x42] == 9 ==> piece == (part(1, 3) || part(2, 2) || part(2, 3) || part(3, 2))
            &&& ram[0x42] == 10 ==> piece == (part(2, 1) || part(2, 2) || part(3, 1) || part(3, 2))
            &&& ram[0x42] == 11 ==> piece == (part(2, 2) || part(2, 3) || part(3, 1) || part(3, 2))
            &&& ram[0x42] == 12 ==> piece == (part(1, 2) || part(2, 2) || part(2, 3) || part(3, 3))
            &&& ram[0x42] == 13 ==> piece == (part(1, 2) || part(2, 2) || part(3, 2) || part(3, 3))
            &&& ram[0x42] == 14 ==> piece == (part(2, 1) || part(2, 2) || part(2, 3) || part(3, 1))
            &&& ram[0x42] == 15 ==> piece == (part(1, 1) || part(1, 2) || part(2, 2) || part(3, 2))
            &&& ram[0x42] == 16 ==> piece == (part(2, 3) || part(3, 1) || part(3, 2) || part(3, 3))
            &&& ram[0x42] == 17 ==> piece == (part(0, 2) || part(1, 2) || part(2, 2) || part(3, 2))
            &&& ram[0x42] == 18 ==> piece == (part(3, 0) || part(3, 1) || part(3, 2) || part(3, 3))
            &&& ram[0x42] >= 19 ==> !piece
            &&& !piece ==> sensed(ram, i) == (if ram[0x400 + i] == 0xef {
                0int
            } else {
                1int
            })
        }),
{
    lemma_four_parts(ram, i);
    if ram[0x42] == 0 {
        assert(PIECE_SHAPE@[0]@[0] == (3u8, 2u8));
        assert(PIECE_SHAPE@[0]@[1] == (4u8, 1u8));
        assert(PIECE_SHAPE@[0]@[2] == (4u8, 2u8));
        assert(PIECE_SHAPE@[0]@[3] == (4u8, 3u8));
    } else if ram[0x42] == 1 {
        assert(PIECE_SHAPE@[1]@[0] == (1u8, 2u8));
        assert(PIECE_SHAPE@[1]@[1] == (2u8, 2u8));
        assert(PIECE_SHAPE@[1]@[2] == (2u8, 3u8));
        assert(PIECE_SHAPE@[1]@[3] == (3u8, 2u8));
    } else if ram[0x42] == 2 {
        assert(PIECE_SHAPE@[2]@[0] == (2u8, 1u8));
        assert(PIECE_SHAPE@[2]@[1] == (2u8, 2u8));
        assert(PIECE_SHAPE@[2]@[2] == (2u8, 3u8));
        assert(PIECE_SHAPE@[2]@[3] == (3u8, 2u8));
    } else if ram[0x42] == 3 {
        assert(PIECE_SHAPE@[3]@[0] == (1u8, 2u8));
        assert(PIECE_SHAPE@[3]@[1] == (2u8, 1u8));
        assert(PIECE_SHAPE@[3]@[2] == (2u8, 2u8));
        assert(PIECE_SHAPE@[3]@[3] == (3u8, 2u8));
    } else if ram[0x42] == 4 {
        assert(PIECE_SHAPE@[4]@[0] == (1u8, 2u8));
        assert(PIECE_SHAPE@[4]@[1] == (2u8, 2u8));
        assert(PIECE_SHAPE@[4]@[2] == (3u8, 1u8));
        assert(PIECE_SHAPE@[4]@[3] == (3u8, 2u8));
    } else if ram[0x42] == 5 {
        assert(PIECE_SHAPE@[5]@[0] == (2u8, 1u8));
        assert(PIECE_SHAPE@[5]@[1] == (3u8, 1u8));
        assert(PIECE_SHAPE@[5]@[2] == (3u8, 2u8));
        assert(PIECE_SHAPE@[5]@[3] == (3u8, 3u8));
    } else if ram[0x42] == 6 {
        assert(PIECE_SHAPE@[6]@[0] == (1u8, 2u8));
        assert(PIECE_SHAPE@[6]@[1] == (1u8, 3u8));
        assert(PIECE_SHAPE@[6]@[2] == (2u8, 2u8));
        assert(PIECE_SHAPE@[6]@[3] == (3u8, 2u8));
    } else if ram[0x42] == 7 {
        assert(PIECE_SHAPE@[7]@[0] == (2u8, 1u8));
        assert(PIECE_SHAPE@[7]@[1] == (2u8, 2u8));
        assert(PIECE_SHAPE@[7]@[2] == (2u8, 3u8));
        assert(PIECE_SHAPE@[7]@[3] == (3u8, 3u8));
    } else if ram[0x42] == 8 {
        assert(PIECE_SHAPE@[8]@[0] == (2u8, 1u8));
        assert(PIECE_SHAPE@[8]@[1] == (2u8, 2u8));
        assert(PIECE_SHAPE@[8]@[2] == (3u8, 2u8));
        assert(PIECE_SHAPE@[8]@[3] == (3u8, 3u8));
    } else if ram[0x42] == 9 {
        assert(PIECE_SHAPE@[9]@[0] == (1u8, 3u8));
        assert(PIECE_SHAPE@[9]@[1] == (2u8, 2u8));
        assert(PIECE_SHAPE@[9]@[2] == (2u8, 3u8));
        assert(PIECE_SHAPE@[9]@[3] == (3u8, 2u8));
    } else if ram[0x42] == 10 {
        assert(PIECE_SHAPE@[10]@[0] == (2u8, 1u8));
        assert(PIECE_SHAPE@[10]@[1] == (2u8, 2u8));
        assert(PIECE_SHAPE@[10]@[2] == (3u8, 1u8));
        assert(PIECE_SHAPE@[10]@[3] == (3u8, 2u8));
    } else if ram[0x42] == 11 {
        assert(PIECE_SHAPE@[11]@[0] == (2u8, 2u8));
        assert(PIECE_SHAPE@[11]@[1] == (2u8, 3u8));
        assert(PIECE_SHAPE@[11]@[2] == (3u8, 1u8));
        assert(PIECE_SHAPE@[11]@[3] == (3u8, 2u8));
    } else if ram[0x42] == 12 {
        assert(PIECE_SHAPE@[12]@[0] == (1u8, 2u8));
        assert(PIECE_SHAPE@[12]@[1] == (2u8, 2u8));
        assert(PIECE_SHAPE@[12]@[2] == (2u8, 3u8));
        assert(PIECE_SHAPE@[12]@[3] == (3u8, 3u8));
    } else if ram[0x42] == 13 {
        assert(PIECE_SHAPE@[13]@[0] == (1u8, 2u8));
        assert(PIECE_SHAPE@[13]@[1] == (2u8, 2u8));
        assert(PIECE_SHAPE@[13]@[2] == (3u8, 2u8));
        assert(PIECE_SHAPE@[13]@[3] == (3u8, 3u8));
    } else if ram[0x42] == 14 {
        assert(PIECE_SHAPE@[14]@[0] == (2u8, 1u8));
        assert(PIECE_SHAPE@[14]@[1] == (2u8, 2u8));
        assert(PIECE_SHAPE@[14]@[2] == (2u8, 3u8));
        assert(PIECE_SHAPE@[14]@[3] == (3u8, 1u8));
    } else if ram[0x42] == 15 {
        assert(PIECE_SHAPE@[15]@[0] == (1u8, 1u8));
        assert(PIECE_SHAPE@[15]@[1] == (1u8, 2u8));
        assert(PIECE_SHAPE@[15]@[2] == (2u8, 2u8));
        assert(PIECE_SHAPE@[15]@[3] == (3u8, 2u8));
    } else if ram[0x42] == 16 {
        assert(PIECE_SHAPE@[16]@[0] == (2u8, 3u8));
        assert(PIECE_SHAPE@[16]@[1] == (3u8, 1u8));
        assert(PIECE_SHAPE@[16]@[2] == (3u8, 2u8));
        assert(PIECE_SHAPE@[16]@[3] == (3u8, 3u8));
    } else if ram[0x42] == 17 {
        assert(PIECE_SHAPE@[17]@[0] == (0u8, 2u8));
        assert(PIECE_SHAPE@[17]@[1] == (1u8, 2u8));
        assert(PIECE_SHAPE@[17]@[2] == (2u8, 2u8));
        assert(PIECE_SHAPE@[17]@[3] == (3u8, 2u8));
    } else if ram[0x42] == 18 {
        assert(PIECE_SHAPE@[18]@[0] == (3u8, 0u8));
        assert(PIECE_SHAPE@[18]@[1] == (3u8, 1u8));
        assert(PIECE_SHAPE@[18]@[2] == (3u8, 2u8));
        assert(PIECE_SHAPE@[18]@[3] == (3u8, 3u8));
    }
}

/// A piece that is not at the far end of the range of a byte can be sensed, and so can a
/// board without a piece.
pub proof fn pieces_on_the_board_fit(ram: Seq<u8>)
    requires
        ram.len() >= 0x4c8,
        ram[0x42] >= 19 || (ram[0x41] <= 251 && ram[0x40] <= 252),
    ensures
        piece_fits(ram),
{
    if ram[0x42] < 19 {
        assert forall|k: int| 0 <= k < 4 implies ({
            let (row, col) = #[trigger] PIECE_SHAPE@[ram[0x42] as int]@[k];
            row <= 4 && col <= 3
        }) by {
            lemma_shapes_are_small(ram[0x42] as int, k);
        }
    }
}

/// No shape reaches further than four rows and three columns.
proof fn lemma_shapes_are_small(id: int, k: int)
    requires
        0 <= id < 19,
        0 <= k < 4,
    ensures
        PIECE_SHAPE@[id]@[k].0 <= 4,
        PIECE_SHAPE@[id]@[k].1 <= 3,
{
    if id == 0 {
        assert(PIECE_SHAPE@[0]@[0] == (3u8, 2u8));
        assert(PIECE_SHAPE@[0]@[1] == (4u8, 1u8));
        assert(PIECE_SHAPE@[0]@[2] == (4u8, 2u8));
        assert(PIECE_SHAPE@[0]@[3] == (4u8, 3u8));
    } else if id == 1 {
        assert(PIECE_SHAPE@[1]@[0] == (1u8, 2u8));
        assert(PIECE_SHAPE@[1]@[1] == (2u8, 2u8));
        assert(PIECE_SHAPE@[1]@[2] == (2u8, 3u8));
        assert(PIECE_SHAPE@[1]@[3] == (3u8, 2u8));
    } else if id == 2 {
        assert(PIECE_SHAPE@[2]@[0] == (2u8, 1u8));
        assert(PIECE_SHAPE@[2]@[1] == (2u8, 2u8));
        assert(PIECE_SHAPE@[2]@[2] == (2u8, 3u8));
        assert(PIECE_SHAPE@[2]@[3] == (3u8, 2u8));
    } else if id == 3 {
        assert(PIECE_SHAPE@[3]@[0] == (1u8, 2u8));
        assert(PIECE_SHAPE@[3]@[1] == (2u8, 1u8));
        assert(PIECE_SHAPE@[3]@[2] == (2u8, 2u8));
        assert(PIECE_SHAPE@[3]@[3] == (3u8, 2u8));
    } else if id == 4 {
        assert(PIECE_SHAPE@[4]@[0] == (1u8, 2u8));
        assert(PIECE_SHAPE@[4]@[1] == (2u8, 2u8));
        assert(PIECE_SHAPE@[4]@[2] == (3u8, 1u8));
        assert(PIECE_SHAPE@[4]@[3] == (3u8, 2u8));
    } else if id == 5 {
        assert(PIECE_SHAPE@[5]@[0] == (2u8, 1u8));
        assert(PIECE_SHAPE@[5]@[1] == (3u8, 1u8));
        assert(PIECE_SHAPE@[5]@[2] == (3u8, 2u8));
        assert(PIECE_SHAPE@[5]@[3] == (3u8, 3u8));
    } else if id == 6 {
        assert(PIECE_SHAPE@[6]@[0] == (1u8, 2u8));
        assert(PIECE_SHAPE@[6]@[1] == (1u8, 3u8));
        assert(PIECE_SHAPE@[6]@[2] == (2u8, 2u8));
        assert(PIECE_SHAPE@[6]@[3] == (3u8, 2u8));
    } else if id == 7 {
        assert(PIECE_SHAPE@[7]@[0] == (2u8, 1u8));
        assert(PIECE_SHAPE@[7]@[1] == (2u8, 2u8));
        assert(PIECE_SHAPE@[7]@[2] == (2u8, 3u8));
        assert(PIECE_SHAPE@[7]@[3] == (3u8, 3u8));
    } else if id == 8 {
        assert(PIECE_SHAPE@[8]@[0] == (2u8, 1u8));
        assert(PIECE_SHAPE@[8]@[1] == (2u8, 2u8));
        assert(PIECE_SHAPE@[8]@[2] == (3u8, 2u8));
        assert(PIECE_SHAPE@[8]@[3] == (3u8, 3u8));
    } else if id == 9 {
        assert(PIECE_SHAPE@[9]@[0] == (1u8, 3u8));
        assert(PIECE_SHAPE@[9]@[1] == (2u8, 2u8));
        assert(PIECE_SHAPE@[9]@[2] == (2u8, 3u8));
        assert(PIECE_SHAPE@[9]@[3] == (3u8, 2u8));
    } else if id == 10 {
        assert(PIECE_SHAPE@[10]@[0] == (2u8, 1u8));
        assert(PIECE_SHAPE@[10]@[1] == (2u8, 2u8));
        assert(PIECE_SHAPE@[10]@[2] == (3u8, 1u8));
        assert(PIECE_SHAPE@[10]@[3] == (3u8, 2u8));
    } else if id == 11 {
        assert(PIECE_SHAPE@[11]@[0] == (2u8, 2u8));
        assert(PIECE_SHAPE@[11]@[1] == (2u8, 3u8));
        assert(PIECE_SHAPE@[11]@[2] == (3u8, 1u8));
        assert(PIECE_SHAPE@[11]@[3] == (3u8, 2u8));
    } else if id == 12 {
        assert(PIECE_SHAPE@[12]@[0] == (1u8, 2u8));
        assert(PIECE_SHAPE@[12]@[1] == (2u8, 2u8));
        assert(PIECE_SHAPE@[12]@[2] == (2u8, 3u8));
        assert(PIECE_SHAPE@[12]@[3] == (3u8, 3u8));
    } else if id == 13 {
        assert(PIECE_SHAPE@[13]@[0] == (1u8, 2u8));
        assert(PIECE_SHAPE@[13]@[1] == (2u8, 2u8));
        assert(PIECE_SHAPE@[13]@[2] == (3u8, 2u8));
        assert(PIECE_SHAPE@[13]@[3] == (3u8, 3u8));
    } else if id == 14 {
        assert(PIECE_SHAPE@[14]@[0] == (2u8, 1u8));
        assert(PIECE_SHAPE@[14]@[1] == (2u8, 2u8));
        assert(PIECE_SHAPE@[14]@[2] == (2u8, 3u8));
        assert(PIECE_SHAPE@[14]@[3] == (3u8, 1u8));
    } else if id == 15 {
        assert(PIECE_SHAPE@[15]@[0] == (1u8, 1u8));
        assert(PIECE_SHAPE@[15]@[1] == (1u8, 2u8));
        assert(PIECE_SHAPE@[15]@[2] == (2u8, 2u8));
        assert(PIECE_SHAPE@[15]@[3] == (3u8, 2u8));
    } else if id == 16 {
        assert(PIECE_SHAPE@[16]@[0] == (2u8, 3u8));
        assert(PIECE_SHAPE@[16]@[1] == (3u8, 1u8));
        assert(PIECE_SHAPE@[16]@[2] == (3u8, 2u8));
        assert(PIECE_SHAPE@[16]@[3] == (3u8, 3u8));
    } else if id == 17 {
        assert(PIECE_SHAPE@[17]@[0] == (0u8, 2u8));
        assert(PIECE_SHAPE@[17]@[1] == (1u8, 2u8));
        assert(PIECE_SHAPE@[17]@[2] == (2u8, 2u8));
        assert(PIECE_SHAPE@[17]@[3] == (3u8, 2u8));
    } else if id == 18 {
        assert(PIECE_SHAPE@[18]@[0] == (3u8, 0u8));
        assert(PIECE_SHAPE@[18]@[1] == (3u8, 1u8));
        assert(PIECE_SHAPE@[18]@[2] == (3u8, 2u8));
        assert(PIECE_SHAPE@[18]@[3] == (3u8, 3u8));
    }
    assert(k == 0 || k == 1 || k == 2 || k == 3);
}

/// The bytes of the score are the number of pieces and the three bytes of the points.
pub proof fn scores_hold_their_bytes(ram: Seq<u8>)
    ensures
        score_of(ram) % 0x100 == ram[0x1a],
        score_of(ram) / 0x100 % 0x100 == ram[0x53],
        score_of(ram) / 0x1_0000 % 0x100 == ram[0x54],
        score_of(ram) / 0x100_0000 == ram[0x55],
{
}

/// A level up to nineteen is kept, and a higher one becomes nineteen.
pub proof fn levels_are_capped(level: u8)
    ensures
        start_level(level) <= 19,
        start_level(level) <= level,
        start_level(level) == 19 || start_level(level) == level,
{
}

/// A console runs until it tells that it has started up, which is then taken back, and until
/// it shows a screen. Start is pressed on every screen but the game, and only there.
pub proof fn consoles_are_waited_for(ram: Seq<u8>, seed: u16, level: u8)
    ensures
        ram[0xc3] == 0 ==> boot_step(Phase::Starting, ram, seed, level) == (
            Phase::Starting,
            ConsoleAction::Frame,
        ),
        ram[0xc3] != 0 ==> boot_step(Phase::Starting, ram, seed, level) == (
            Phase::Blank,
            ConsoleAction::Poke { address: 0xc3, value: 0 },
        ),
        ram[0xc0] == 0 ==> boot_step(Phase::Blank, ram, seed, level) == (
            Phase::Blank,
            ConsoleAction::Frame,
        ),
        ram[0xc0] != 0 ==> boot_step(Phase::Blank, ram, seed, level) == boot_step(
            Phase::Screen,
            ram,
            seed,
            level,
        ),
        ram[0xc0] != 4 ==> boot_step(Phase::Screen, ram, seed, level).1
            == ConsoleAction::PressStart,
        ram[0xc0] == 4 ==> boot_step(Phase::Screen, ram, seed, level) == (
            Phase::SeededLow,
            ConsoleAction::Poke { address: 0x17, value: (seed % 256) as u8 },
        ),
{
}

/// The seed and the level go where the game reads them.
pub proof fn seeds_and_levels_are_written(ram: Seq<u8>, seed: u16, level: u8)
    ensures
        boot_step(Phase::SeededLow, ram, seed, level) == (
            Phase::Seeded,
            ConsoleAction::Poke { address: 0x18, value: (seed / 256) as u8 },
        ),
        boot_step(Phase::Seeded, ram, seed, level) == (
            Phase::Playable,
            ConsoleAction::Poke {
                address: 0x64,
                value: if level <= 19 {
                    level
                } else {
                    19
                },
            },
        ),
        boot_step(Phase::Playable, ram, seed, level) == (Phase::Playable, ConsoleAction::Ready),
        forall|phase: Phase| #[trigger]
            boot_step(phase, ram, seed, level).1 == ConsoleAction::PressStart ==> phase
                == Phase::Blank || phase == Phase::Screen,
{
}

/// A network plays with every button but the third and the fourth, and holds down exactly
/// those that it asks for.
pub proof fn networks_hold_down_what_they_ask_for(input: [bool; 8], outputs: Seq<u64>, i: int)
    requires
        NesEngine::does(input, outputs),
        0 <= i < 8,
    ensures
        input@[i] <==> i != 2 && i != 3 && i < outputs.len() && 0x3FE0_0000_0000_0000 <= outputs[i]
            <= 0x7FF0_0000_0000_0000,
{
}

/// The third and the fourth button are the ones that no network has a say in.
pub proof fn select_and_start_are_left_alone(i: int)
    ensures
        is_playable(i) <==> i != 2 && i != 3,
{
}

/// What the engine shows is what its memory holds: the board as numbers, the end of the game
/// and the score; and its games begin with the console switched on.
pub proof fn consoles_are_read_through_their_memory(
    reading: Vec<u8>,
    i: int,
    seed: u16,
    level: u8,
)
    requires
        reading@.len() >= 0x4c8,
        0 <= i < 200,
    ensures
        NesEngine::squares(reading).len() == 200,
        sensed(reading@, i) == -1 ==> NesEngine::squares(reading)[i] == 0xBFF0_0000_0000_0000,
        sensed(reading@, i) == 0 ==> NesEngine::squares(reading)[i] == 0,
        sensed(reading@, i) == 1 ==> NesEngine::squares(reading)[i] == 0x3FF0_0000_0000_0000,
        NesEngine::shows_board(reading) == piece_fits(reading@),
        NesEngine::shows_end(reading),
        NesEngine::has_ended(reading) <==> reading@[0x58] != 0,
        NesEngine::shows_score(reading),
        NesEngine::points(reading) == score_of(reading@),
        NesEngine::opening(seed, level).seed == seed,
        NesEngine::opening(seed, level).level == level,
        NesEngine::opening(seed, level).phase == Phase::Starting,
        NesEngine::output_count() == 8,
{
}

/// Up to eight outputs are taken.
pub proof fn consoles_take_eight_outputs(outputs: Seq<u64>)
    ensures
        NesEngine::takes(outputs) <==> outputs.len() <= 8,
{
}

/// A board can be shown, a game be seen to be over and its score be read from the length of
/// memory on that reaches to where they are held.
pub proof fn consoles_need_enough_memory(reading: Vec<u8>)
    ensures
        NesEngine::shows_end(reading) <==> reading@.len() >= 0x59,
        NesEngine::shows_score(reading) <==> reading@.len() >= 0x56,
        NesEngine::shows_board(reading) ==> reading@.len() >= 0x4c8,
{
}

/// A piece fits only where none of its four parts goes beyond what a byte holds.
pub proof fn pieces_that_fit_stay_in_their_bytes(ram: Seq<u8>, k: int)
    requires
        piece_fits(ram),
        ram[0x42] < 19,
        0 <= k < 4,
    ensures
        PIECE_SHAPE@[ram[0x42] as int]@[k].0 + ram[0x41] <= 255,
        PIECE_SHAPE@[ram[0x42] as int]@[k].1 + ram[0x40] <= 255,
{
}

} // verus!
