//! What the Tetris scenarios share.
//!
//! The scenarios differ in the engine that runs the game. An engine is driven from
//! outside; what is asked of it, and what its answers mean, is decided here and in
//! the module of the scenario.
use crate::random::{next_state, word, WyRng};
use crate::share::Shareable;
use crate::text::{decimal, decimal_len, push_decimal, push_repeated, repeated};
use rand::RngCore;
use std::marker::PhantomData;
use std::sync::atomic::AtomicPtr;
use vstd::prelude::*;
use vstd::string::StringExecFns;

verus! {

/// How many squares a board has.
pub const BOARD_SIZE: usize = 200;

/// The seed that the counter value `counter` stands for: the lowest sixteen
/// bits of the first word of a generator that starts there.
pub open spec fn seed_from(counter: u64) -> u16 {
    word(next_state(counter)) as u16
}

/// Takes the next seed.
pub fn next_seed(counter: &mut u64) -> (seed: u16)
    ensures
        seed == seed_from(*old(counter)),
        *final(counter) == old(counter).wrapping_add(1),
{
    let mut rng = WyRng::seeded(*counter);
    *counter = counter.wrapping_add(1);
    rng.next_u64() as u16
}

/// What kind of engine runs the game: how a game of it begins, what is read off it and what
/// it is told to do.
pub trait TetrisEngine: Sized {
    /// How a game begins.
    type Opening;

    /// What the engine shows of a running game.
    type Reading;

    /// What the engine takes for one game tick.
    type Input;

    /// How the game with the seed `seed` begins at level `level`.
    spec fn opening(seed: u16, level: u8) -> Self::Opening;

    /// Number of network output nodes this engine consumes.
    spec fn output_count() -> usize;

    /// Whether the board can be read off `reading`.
    spec fn shows_board(reading: Self::Reading) -> bool;

    /// The numbers of the squares of the board, row by row.
    spec fn squares(reading: Self::Reading) -> Seq<u64>;

    /// Whether `outputs` can be applied as actions.
    spec fn takes(outputs: Seq<u64>) -> bool;

    /// Whether `input` does what `outputs` asks for.
    spec fn does(input: Self::Input, outputs: Seq<u64>) -> bool;

    /// Whether it can be read off `reading` if the game is over.
    spec fn shows_end(reading: Self::Reading) -> bool;

    /// Whether the game is over.
    spec fn has_ended(reading: Self::Reading) -> bool;

    /// Whether the score can be read off `reading`.
    spec fn shows_score(reading: Self::Reading) -> bool;

    /// The score.
    spec fn points(reading: Self::Reading) -> int;

    /// Begins the game with the seed `seed` at level `level`.
    fn new_game(seed: u16, level: u8) -> (opening: Self::Opening)
        ensures
            opening == Self::opening(seed, level),
    ;

    /// Number of network output nodes this engine consumes.
    fn outputs() -> (n: usize)
        ensures
            n == Self::output_count(),
    ;

    /// Tells whether the board can be read off `reading`.
    fn can_sense(reading: &Self::Reading) -> (can: bool)
        ensures
            can == Self::shows_board(*reading),
    ;

    /// Reads off the current board (0=empty, 1=placed, -1=falling piece).
    fn sense(reading: &Self::Reading) -> (board: Vec<u64>)
        requires
            Self::shows_board(*reading),
        ensures
            board@ == Self::squares(*reading),
            board@.len() == BOARD_SIZE,
    ;

    /// Applies `outputs` as actions for one game tick.
    fn tick(outputs: &[u64]) -> (input: Self::Input)
        requires
            Self::takes(outputs@),
        ensures
            Self::does(input, outputs@),
    ;

    /// Tells, after a tick, whether the game is over.
    fn is_over(reading: &Self::Reading) -> (over: bool)
        requires
            Self::shows_end(*reading),
        ensures
            over == Self::has_ended(*reading),
    ;

    /// Tells whether the score can be read off `reading`.
    fn can_score(reading: &Self::Reading) -> (can: bool)
        ensures
            can == Self::shows_score(*reading),
    ;

    /// Reads off the score.
    fn score(reading: &Self::Reading) -> (s: i64)
        requires
            Self::shows_score(*reading),
        ensures
            s == Self::points(*reading),
    ;
}

/// Tetris as a scenario: how the games of an evaluation are set up.
///
/// A scenario holds no engine and can be shared between threads whatever the engine is like.
#[verifier::reject_recursive_types(E)]
pub struct TetrisScenario<E> {
    /// The level that a game starts at.
    pub level: u8,
    /// How many games an evaluation averages over.
    pub games: usize,
    /// The seed of every game; without it each game gets its own.
    pub seed: Option<u16>,
    /// The engine that runs the games.
    pub engine: PhantomData<AtomicPtr<E>>,
}

impl<E> Shareable for TetrisScenario<E> {

}

impl<E: TetrisEngine> TetrisScenario<E> {
    /// A scenario in which `games` games start at level `level`.
    pub fn new(level: u8, games: usize, seed: Option<u16>) -> (s: Self)
        ensures
            s.level == level,
            s.games == games,
            s.seed == seed,
    {
        TetrisScenario { level, games, seed, engine: PhantomData }
    }

    /// How many numbers a network is shown and how many it puts out.
    pub fn io(&self) -> (d: (usize, usize))
        ensures
            d == (BOARD_SIZE, E::output_count()),
    {
        (BOARD_SIZE, E::outputs())
    }

    /// Picks the seed of the next game: the scenario's own where it has one, and
    /// otherwise the one that `counter` stands for.
    pub fn game_seed(&self, counter: &mut u64) -> (seed: u16)
        ensures
            self.seed matches Some(own) ==> seed == own && *final(counter) == *old(counter),
            self.seed is None ==> seed == seed_from(*old(counter)) && *final(counter) == old(
                counter,
            ).wrapping_add(1),
    {
        match self.seed {
            Some(own) => own,
            None => next_seed(counter),
        }
    }

    /// Begins the next game, with the seed that [`TetrisScenario::game_seed`] picks.
    pub fn next_game(&self, counter: &mut u64) -> (opening: E::Opening)
        ensures
            self.seed matches Some(own) ==> {
                &&& opening == E::opening(own, self.level)
                &&& *final(counter) == *old(counter)
            },
            self.seed is None ==> {
                &&& opening == E::opening(seed_from(*old(counter)), self.level)
                &&& *final(counter) == old(counter).wrapping_add(1)
            },
    {
        E::new_game(self.game_seed(counter), self.level)
    }

    /// Begins the evaluation that scores a genome: the average over the scores of `games`
    /// games.
    pub fn eval(&self) -> (e: Evaluation)
        ensures
            e == (Evaluation { games_left: self.games, stage: Stage::Between }),
            e.wf(),
    {
        Evaluation { games_left: self.games, stage: Stage::Between }
    }

    /// Tells what comes next in the evaluation `e`, where `over` tells whether the last tick
    /// ended its game.
    pub fn step(&self, e: &mut Evaluation, over: bool, counter: &mut u64) -> (next: Next<
        E::Opening,
    >)
        requires
            old(e).wf(),
        ensures
            final(e).wf(),
            *final(e) == evaluation_step(*old(e), over).0,
            match evaluation_step(*old(e), over).1 {
                Turn::Begin => next == Next::Begin(
                    E::opening(
                        match self.seed {
                            Some(own) => own,
                            None => seed_from(*old(counter)),
                        },
                        self.level,
                    ),
                ),
                Turn::Tick => next is Tick,
                Turn::Score => next is Score,
                Turn::End => next is End,
            },
            *final(counter) == (if evaluation_step(*old(e), over).1 == Turn::Begin && self.seed
                is None {
                old(counter).wrapping_add(1)
            } else {
                *old(counter)
            }),
    {
        match e.stage {
            Stage::Between => if e.games_left > 0 {
                e.stage = Stage::Begun;
                Next::Begin(self.next_game(counter))
            } else {
                Next::End
            },
            Stage::Begun => {
                e.stage = Stage::Playing;
                Next::Tick
            },
            Stage::Playing => if over {
                e.stage = Stage::Between;
                e.games_left = e.games_left - 1;
                Next::Score
            } else {
                Next::Tick
            },
        }
    }
}

/// How far the current game of an evaluation has got.
#[derive(Clone, Copy, Debug, PartialEq, Eq, Structural)]
pub enum Stage {
    /// There is none.
    Between,
    /// It has begun, and no tick has been played.
    Begun,
    /// A tick has been played.
    Playing,
}

/// An evaluation: how many games it has still to score, and how far the current one has got.
#[derive(Clone, Copy, Debug, PartialEq, Eq, Structural)]
pub struct Evaluation {
    pub games_left: usize,
    pub stage: Stage,
}

impl Evaluation {
    /// Whether a game that is being played is one of those that are left.
    pub open spec fn wf(&self) -> bool {
        self.stage != Stage::Between ==> self.games_left > 0
    }
}

/// What comes next in an evaluation.
#[derive(Debug)]
pub enum Next<O> {
    /// A game begins like this.
    Begin(O),
    /// The network is shown the board, and its outputs are applied for one tick.
    Tick,
    /// The game is over, and its score counts.
    Score,
    /// Every game has been scored.
    End,
}

/// What kind of step comes next in an evaluation.
pub enum Turn {
    Begin,
    Tick,
    Score,
    End,
}

/// The evaluation after its next step, and what kind of step that is, where `over` tells
/// whether the last tick ended its game.
pub open spec fn evaluation_step(e: Evaluation, over: bool) -> (Evaluation, Turn) {
    match e.stage {
        Stage::Between => if e.games_left > 0 {
            (Evaluation { stage: Stage::Begun, ..e }, Turn::Begin)
        } else {
            (e, Turn::End)
        },
        Stage::Begun => (Evaluation { stage: Stage::Playing, ..e }, Turn::Tick),
        Stage::Playing => if over {
            (
                Evaluation { games_left: (e.games_left - 1) as usize, stage: Stage::Between },
                Turn::Score,
            )
        } else {
            (e, Turn::Tick)
        },
    }
}

/// The evaluation `e` after as many steps as `overs` has answers.
pub open spec fn evaluation_through(e: Evaluation, overs: Seq<bool>) -> Evaluation
    decreases overs.len(),
{
    if overs.len() == 0 {
        e
    } else {
        evaluation_step(evaluation_through(e, overs.drop_last()), overs.last()).0
    }
}

/// How many of the steps with the answers `overs` are of the kind `turn`.
pub open spec fn turns(e: Evaluation, overs: Seq<bool>, turn: Turn) -> nat
    decreases overs.len(),
{
    if overs.len() == 0 {
        0
    } else {
        let before = evaluation_through(e, overs.drop_last());
        turns(e, overs.drop_last(), turn) + (if evaluation_step(before, overs.last()).1 == turn {
            1nat
        } else {
            0nat
        })
    }
}

/// Every game that begins is scored before the next one begins, and the end comes after
/// exactly as many scores as there are games.
pub proof fn every_game_is_scored(games: usize, overs: Seq<bool>)
    ensures
        ({
            let start = Evaluation { games_left: games, stage: Stage::Between };
            let e = evaluation_through(start, overs);
            let begun = turns(start, overs, Turn::Begin);
            let scored = turns(start, overs, Turn::Score);
            &&& e.wf()
            &&& scored + e.games_left == games
            &&& begun == scored + (if e.stage == Stage::Between {
                0int
            } else {
                1int
            })
            &&& forall|over: bool| #[trigger]
                evaluation_step(e, over).1 == Turn::End <==> scored == games
        }),
    decreases overs.len(),
{
    if overs.len() > 0 {
        every_game_is_scored(games, overs.drop_last());
    }
}

/// A game goes on from tick to tick until a tick ends it, and is then scored at once. Its
/// first tick is played whatever was over before.
pub proof fn games_go_on_until_they_are_over(e: Evaluation, over: bool)
    ensures
        e.stage == Stage::Begun ==> evaluation_step(e, over).1 == Turn::Tick,
        e.stage == Stage::Playing ==> evaluation_step(e, over).1 == (if over {
            Turn::Score
        } else {
            Turn::Tick
        }),
        evaluation_step(e, over).1 == Turn::Begin ==> evaluation_step(e, over).0.stage
            == Stage::Begun,
        evaluation_step(e, over).1 == Turn::Tick ==> evaluation_step(e, over).0.stage
            == Stage::Playing,
{
}

/// How many steps an evaluation still takes, besides the ticks that do not end a game.
pub open spec fn steps_left(e: Evaluation) -> int {
    3 * e.games_left - match e.stage {
        Stage::Between => 0int,
        Stage::Begun => 1int,
        Stage::Playing => 2int,
    }
}

/// Every step but a tick that does not end its game brings the end of an evaluation nearer,
/// so that an evaluation ends when its games do.
pub proof fn evaluations_end(e: Evaluation, over: bool)
    requires
        e.wf(),
    ensures
        steps_left(e) >= 0,
        steps_left(e) == 0 <==> evaluation_step(e, over).1 == Turn::End,
        evaluation_step(e, over).1 != Turn::End && (over || e.stage != Stage::Playing)
            ==> steps_left(evaluation_step(e, over).0) == steps_left(e) - 1,
{
}

/// What a display shows of a running evolution.
#[derive(Clone, Copy, Debug)]
pub struct Watch {
    /// The latest generation.
    pub generation: usize,
    /// The best fitness of that generation.
    pub max_fitness: u64,
}

impl Watch {
    /// A watch that nothing has been noted on: generation zero, and a fitness of zero.
    pub fn new() -> (w: Self)
        ensures
            watched(w) == (0usize, 0u64),
    {
        Watch { generation: 0, max_fitness: 0 }
    }
}

/// What a display reads off `watch`: the generation and its best fitness.
pub open spec fn watched(watch: Watch) -> (usize, u64) {
    (watch.generation, watch.max_fitness)
}

/// Takes note of a generation. What is read next is what was noted here.
pub fn update_watch(watch: &mut Watch, generation: usize, max_fitness: u64)
    ensures
        watched(*final(watch)) == (generation, max_fitness),
{
    watch.generation = generation;
    watch.max_fitness = max_fitness;
}

/// Tells the generation and the fitness that were last taken note of.
pub fn read_watch(watch: &Watch) -> (r: (usize, u64))
    ensures
        r == watched(*watch),
{
    (watch.generation, watch.max_fitness)
}

/// Takes note of a generation whose fittest genome has the fitness `fittest`. Without
/// such a genome the fitness counts as zero.
pub fn watch_hook(watch: &mut Watch, generation: usize, fittest: Option<u64>)
    ensures
        watched(*final(watch)) == (
            generation,
            match fittest {
                Some(fitness) => fitness,
                None => 0,
            },
        ),
{
    update_watch(
        watch,
        generation,
        match fittest {
            Some(fitness) => fitness,
            None => 0,
        },
    );
}

/// How wide a footer is between its bars.
pub open spec fn footer_width(left: nat, right: nat) -> nat {
    if left + 1 + right < 8 {
        8
    } else {
        left + 1 + right
    }
}

/// A footer: a rule, and below it `left` and `right`, flush with the bars.
pub open spec fn footer_text(left: Seq<char>, right: Seq<char>) -> Seq<char> {
    let inner = footer_width(left.len(), right.len());
    "|"@ + repeated('-', inner) + "|\n|"@ + left + repeated(
        ' ',
        (inner - left.len() - right.len()) as nat,
    ) + right + "|\n"@
}

/// Draws a footer with the number `score` to the left and the number `number`, after
/// the text `prefix`, to the right. `prefix` holds `prefix_len` characters.
pub(crate) fn footer(score: u64, prefix: &str, prefix_len: usize, number: u64) -> (out: String)
    requires
        prefix_len == prefix@.len(),
        prefix_len < 100,
    ensures
        out@ == footer_text(decimal(score as nat), prefix@ + decimal(number as nat)),
{
    let left: usize = decimal_len(score);
    let right: usize = prefix_len + decimal_len(number);
    let inner: usize = if left + 1 + right < 8 {
        8
    } else {
        left + 1 + right
    };
    let mut out = String::from_str("|");
    push_repeated(&mut out, '-', inner);
    out.append("|\n|");
    push_decimal(&mut out, score);
    push_repeated(&mut out, ' ', inner - left - right);
    let ghost before = out@;
    out.append(prefix);
    push_decimal(&mut out, number);
    assert(out@ =~= before + (prefix@ + decimal(number as nat)));
    out.append("|\n");
    out
}

/// Draws the footer of a game: the score to the left and the generation to the right.
pub fn draw_footer(score: u64, watch: &Watch) -> (out: String)
    ensures
        out@ == footer_text(decimal(score as nat), decimal(watch.generation as nat)),
{
    let (generation, _) = read_watch(watch);
    assert(""@ =~= Seq::<char>::empty()) by {
        reveal_strlit("");
    }
    assert(""@ + decimal(generation as nat) =~= decimal(generation as nat));
    footer(score, "", 0, generation as u64)
}

/// The rule of a footer and the line below it are equally long, and at least one blank
/// stands between the two texts.
pub proof fn footer_lines_match(left: Seq<char>, right: Seq<char>)
    ensures
        ({
            let inner = footer_width(left.len(), right.len());
            let text = footer_text(left, right);
            &&& inner > left.len() + right.len()
            &&& text.len() == 2 * (inner + 3)
            &&& text.take((inner + 3) as int) == seq!['|'] + repeated('-', inner) + seq!['|', '\n']
            &&& text.skip((inner + 3) as int) == seq!['|'] + left + repeated(
                ' ',
                (inner - left.len() - right.len()) as nat,
            ) + right + seq!['|', '\n']
        }),
{
    reveal_strlit("|");
    reveal_strlit("|\n|");
    reveal_strlit("|\n");
    let inner = footer_width(left.len(), right.len());
    let text = footer_text(left, right);
    assert(text.take((inner + 3) as int) =~= seq!['|'] + repeated('-', inner) + seq!['|', '\n']);
    assert(text.skip((inner + 3) as int) =~= seq!['|'] + left + repeated(
        ' ',
        (inner - left.len() - right.len()) as nat,
    ) + right + seq!['|', '\n']);
}

/// A seed is what is left of the first word of a generator that starts at the counter after
/// division by 65536.
pub proof fn seeds_are_low_halves(counter: u64)
    ensures
        seed_from(counter) == word(next_state(counter)) % 0x1_0000,
{
    let w = word(next_state(counter));
    assert(w as u16 == w % 0x1_0000) by (bit_vector);
}

/// A footer has room for both texts and one blank, and is never less than eight wide.
pub proof fn footers_have_room(left: nat, right: nat)
    ensures
        footer_width(left, right) >= 8,
        footer_width(left, right) >= left + right + 1,
        footer_width(left, right) == 8 || footer_width(left, right) == left + right + 1,
        footer_width(left, right) == footer_width(right, left),
{
}

/// What is read off a watch is the generation and the fitness that it holds.
pub proof fn watches_show_what_they_hold(watch: Watch)
    ensures
        watched(watch).0 == watch.generation,
        watched(watch).1 == watch.max_fitness,
{
}

/// While games are left and none is being played, the next one begins; ticks and beginnings
/// score nothing, and a score is worth one game.
pub proof fn games_begin_while_they_are_left(e: Evaluation, over: bool)
    ensures
        ({
            let (after, turn) = evaluation_step(e, over);
            &&& e.stage == Stage::Between ==> turn == (if e.games_left > 0 {
                Turn::Begin
            } else {
                Turn::End
            })
            &&& turn != Turn::Score ==> after.games_left == e.games_left
            &&& turn == Turn::Score && e.games_left > 0 ==> after.games_left == e.games_left - 1
                && after.stage == Stage::Between
            &&& turn == Turn::End ==> after == e
        }),
{
}

} // verus!
