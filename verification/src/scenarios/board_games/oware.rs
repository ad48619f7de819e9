//! Oware, with six pits a side.
use super::{
    ascending, finished_games_share_a_point, is_first_best, lemma_ascending, outcome_points,
    score_outcome, share_a_point, the_greatest_wish_decides, weights, CoEvolGame, Outcome, Player,
};
use crate::bits::{above, rank};
use crate::ratio::{quotient, Ratio};
use board_game::board::Board;
use board_game::games::oware::OwareBoard;
use vstd::prelude::*;
use vstd::string::StringExecFns;

verus! {

/// How many pits each player has.
pub const PITS: usize = 6;

/// How many seeds there are.
pub const TOTAL_SEEDS: i32 = 48;

/// How many moves a game stops after.
pub const MAX_PLIES: usize = 200;

/// The board of the `board-game` crate.
#[verifier::external_type_specification]
#[verifier::external_body]
pub struct ExOwareBoard<const PITS_PER_PLAYER: usize>(
    board_game::games::oware::OwareBoard<PITS_PER_PLAYER>,
);

/// The seeds on `board`: in the six pits of player `A`, in the six pits of player
/// `B`, and then what `A` and what `B` have captured.
pub uninterp spec fn oware_seeds(board: OwareBoard<6>) -> Seq<u8>;

/// The player whose turn it is on `board`.
pub uninterp spec fn oware_turn(board: OwareBoard<6>) -> Player;

/// The seeds after the player `mover` has sown the pit `pit` on a board that held
/// `seeds`, with everything that was captured on the way.
pub uninterp spec fn oware_sown(seeds: Seq<u8>, mover: Player, pit: usize) -> Seq<u8>;

/// How many seeds there are in all.
pub open spec fn total(seeds: Seq<u8>) -> nat
    decreases seeds.len(),
{
    if seeds.len() == 0 {
        0
    } else {
        total(seeds.drop_last()) + seeds.last() as nat
    }
}

/// The seeds in pit `pit` of `player`.
pub open spec fn pit_seeds(seeds: Seq<u8>, player: Player, pit: int) -> u8 {
    match player {
        Player::A => seeds[pit],
        Player::B => seeds[6 + pit],
    }
}

/// The seeds that `player` has captured.
pub open spec fn captured(seeds: Seq<u8>, player: Player) -> u8 {
    match player {
        Player::A => seeds[12],
        Player::B => seeds[13],
    }
}

/// How a game that has reached `seeds` ended, if it has: a player who has captured
/// more than half of the seeds wins, and with half of them each it is a draw.
pub open spec fn oware_outcome(seeds: Seq<u8>) -> Option<Outcome> {
    if captured(seeds, Player::A) > 24 {
        Some(Outcome::WonBy(Player::A))
    } else if captured(seeds, Player::B) > 24 {
        Some(Outcome::WonBy(Player::B))
    } else if captured(seeds, Player::A) == 24 && captured(seeds, Player::B) == 24 {
        Some(Outcome::Draw)
    } else {
        None
    }
}

/// Whether `mover` may sow pit `pit`: one that holds seeds, and where the rival has
/// none, one that holds enough of them to reach the rival.
pub open spec fn sowable(seeds: Seq<u8>, mover: Player, pit: int) -> bool {
    &&& 0 <= pit < 6
    &&& if exists|i: int| 0 <= i < 6 && #[trigger] pit_seeds(seeds, mover.rival(), i) > 0 {
        pit_seeds(seeds, mover, pit) > 0
    } else {
        pit + pit_seeds(seeds, mover, pit) >= 6
    }
}

/// The pits that the player to move may sow in an unfinished game, in ascending
/// order.
pub open spec fn oware_choices(seeds: Seq<u8>, mover: Player) -> Seq<usize> {
    if oware_outcome(seeds) is Some {
        Seq::empty()
    } else {
        ascending(6, |pit: int| sowable(seeds, mover, pit)).map_values(|pit: int| pit as usize)
    }
}

/// What a network sees of `seeds`: the pits of `viewpoint`, those of its rival and
/// what the two have captured, as shares of all seeds.
pub open spec fn seed_shares(seeds: Seq<u8>, viewpoint: Player) -> Seq<Ratio> {
    Seq::new(
        14,
        |i: int|
            quotient(
                if i < 6 {
                    pit_seeds(seeds, viewpoint, i) as int
                } else if i < 12 {
                    pit_seeds(seeds, viewpoint.rival(), i - 6) as int
                } else if i == 12 {
                    captured(seeds, viewpoint) as int
                } else {
                    captured(seeds, viewpoint.rival()) as int
                },
                48,
            ),
    )
}

/// What a game that stopped at `seeds` is worth to `learner`: the outcome where
/// there is one, and otherwise the learner's share of what was captured.
pub open spec fn oware_points(seeds: Seq<u8>, learner: Player) -> Ratio {
    let own = captured(seeds, learner);
    let rival = captured(seeds, learner.rival());
    if oware_outcome(seeds) is Some {
        outcome_points(oware_outcome(seeds), learner)
    } else if own + rival == 0 {
        quotient(1, 2)
    } else {
        quotient(own as int, own + rival)
    }
}

/// Calls `OwareBoard::default`, which puts four seeds in every pit.
#[verifier::external_body]
fn full_board() -> (board: OwareBoard<6>)
    ensures
        oware_seeds(board) == seq![4u8, 4, 4, 4, 4, 4, 4, 4, 4, 4, 4, 4, 0, 0],
        oware_turn(board) == Player::A,
{
    OwareBoard::default()
}

/// Calls `OwareBoard::get_seeds`, which tells how many seeds a pit holds.
#[verifier::external_body]
fn get_seeds(board: &OwareBoard<6>, player: Player, pit: usize) -> (n: u8)
    requires
        pit < 6,
    ensures
        n == pit_seeds(oware_seeds(*board), player, pit as int),
{
    match player {
        Player::A => board.get_seeds(board_game::board::Player::A, pit),
        Player::B => board.get_seeds(board_game::board::Player::B, pit),
    }
}

/// Calls `OwareBoard::score`, which tells how many seeds a player has captured.
#[verifier::external_body]
fn get_captured(board: &OwareBoard<6>, player: Player) -> (n: u8)
    ensures
        n == captured(oware_seeds(*board), player),
{
    match player {
        Player::A => board.score(board_game::board::Player::A),
        Player::B => board.score(board_game::board::Player::B),
    }
}

/// Calls `OwareBoard::next_player`, which tells whose turn it is.
#[verifier::external_body]
fn player_to_move(board: &OwareBoard<6>) -> (p: Player)
    ensures
        p == oware_turn(*board),
{
    match board.next_player() {
        board_game::board::Player::A => Player::A,
        board_game::board::Player::B => Player::B,
    }
}

/// Calls `OwareBoard::outcome`, which goes by what the players have captured.
#[verifier::external_body]
fn board_outcome(board: &OwareBoard<6>) -> (o: Option<Outcome>)
    requires
        total(oware_seeds(*board)) == TOTAL_SEEDS,
    ensures
        o == oware_outcome(oware_seeds(*board)),
{
    match board.outcome() {
        Some(board_game::board::Outcome::WonBy(board_game::board::Player::A)) => Some(
            Outcome::WonBy(Player::A),
        ),
        Some(board_game::board::Outcome::WonBy(board_game::board::Player::B)) => Some(
            Outcome::WonBy(Player::B),
        ),
        Some(board_game::board::Outcome::Draw) => Some(Outcome::Draw),
        None => None,
    }
}

/// Calls `OwareBoard::is_available_move`, which reports an error on a finished board
/// and otherwise whether the pit may be sown.
#[verifier::external_body]
fn is_available(board: &OwareBoard<6>, pit: usize) -> (a: Option<bool>)
    requires
        total(oware_seeds(*board)) == TOTAL_SEEDS,
    ensures
        oware_outcome(oware_seeds(*board)) is Some ==> a is None,
        oware_outcome(oware_seeds(*board)) is None ==> a == Some(
            sowable(oware_seeds(*board), oware_turn(*board), pit as int),
        ),
{
    board.is_available_move(pit).ok()
}

/// Calls `OwareBoard::play`, which sows a pit where the move is available and
/// reports an error, changing nothing, where it is not.
///
/// Claimed of the sowing: the turn passes, no seed is lost or gained, and the result
/// depends on nothing but the seeds, the player and the pit. How the seeds end up is
/// left to its name.
#[verifier::external_body]
fn sow(board: &mut OwareBoard<6>, pit: usize) -> (sown: bool)
    requires
        total(oware_seeds(*old(board))) == TOTAL_SEEDS,
    ensures
        sown == (oware_outcome(oware_seeds(*old(board))) is None && sowable(
            oware_seeds(*old(board)),
            oware_turn(*old(board)),
            pit as int,
        )),
        sown ==> {
            &&& oware_seeds(*final(board)) == oware_sown(
                oware_seeds(*old(board)),
                oware_turn(*old(board)),
                pit,
            )
            &&& oware_turn(*final(board)) == oware_turn(*old(board)).rival()
            &&& oware_seeds(*final(board)).len() == oware_seeds(*old(board)).len()
            &&& total(oware_seeds(*final(board))) == total(oware_seeds(*old(board)))
        },
        !sown ==> {
            &&& oware_seeds(*final(board)) == oware_seeds(*old(board))
            &&& oware_turn(*final(board)) == oware_turn(*old(board))
        },
{
    board.play(pit).is_ok()
}

/// A pit is on the list of choices only where it may be sown and the game goes on.
proof fn lemma_choices(seeds: Seq<u8>, mover: Player, pit: usize)
    requires
        oware_choices(seeds, mover).contains(pit),
    ensures
        oware_outcome(seeds) is None,
        sowable(seeds, mover, pit as int),
{
    let keep = |p: int| sowable(seeds, mover, p);
    let numbers = ascending(6, keep);
    lemma_ascending(6, keep);
    let k = choose|k: int|
        0 <= k < oware_choices(seeds, mover).len() && oware_choices(seeds, mover)[k] == pit;
    assert(pit == numbers[k] as usize);
    assert(0 <= numbers[k] < 6);
}

/// The opening holds all seeds.
proof fn lemma_opening_total()
    ensures
        total(seq![4u8, 4, 4, 4, 4, 4, 4, 4, 4, 4, 4, 4, 0, 0]) == 48,
{
    reveal_with_fuel(total, 15);
}

/// No more seeds are captured than there are.
proof fn lemma_captured(seeds: Seq<u8>)
    requires
        seeds.len() == 14,
    ensures
        captured(seeds, Player::A) + captured(seeds, Player::B) <= total(seeds),
{
    reveal_with_fuel(total, 3);
    assert(seeds.drop_last().last() == seeds[12]);
}

/// Oware as a co-evolutionary game.
pub struct OwareGame {
    board: OwareBoard<6>,
}

impl CoEvolGame for OwareGame {
    type Move = usize;

    type Position = (Seq<u8>, Player);

    closed spec fn position(&self) -> (Seq<u8>, Player) {
        (oware_seeds(self.board), oware_turn(self.board))
    }

    closed spec fn wf(&self) -> bool {
        &&& oware_seeds(self.board).len() == 14
        &&& total(oware_seeds(self.board)) == TOTAL_SEEDS
    }

    open spec fn opening() -> (Seq<u8>, Player) {
        (seq![4u8, 4, 4, 4, 4, 4, 4, 4, 4, 4, 4, 4, 0, 0], Player::A)
    }

    open spec fn to_move(p: (Seq<u8>, Player)) -> Player {
        p.1
    }

    open spec fn outcome_of(p: (Seq<u8>, Player)) -> Option<Outcome> {
        oware_outcome(p.0)
    }

    open spec fn choices(p: (Seq<u8>, Player)) -> Seq<usize> {
        oware_choices(p.0, p.1)
    }

    open spec fn after(p: (Seq<u8>, Player), m: usize) -> (Seq<u8>, Player) {
        (oware_sown(p.0, p.1, m), p.1.rival())
    }

    open spec fn picture(p: (Seq<u8>, Player), viewpoint: Player) -> Seq<Ratio> {
        seed_shares(p.0, viewpoint)
    }

    open spec fn weight(reply: Seq<u64>, m: usize) -> u64 {
        reply[m as int]
    }

    open spec fn points(p: (Seq<u8>, Player), learner: Player) -> Ratio {
        oware_points(p.0, learner)
    }

    open spec fn games() -> usize {
        6
    }

    open spec fn dims() -> (usize, usize) {
        (14, 6)
    }

    open spec fn reply_size() -> usize {
        6
    }

    open spec fn plays_lone_choice() -> bool {
        false
    }

    open spec fn move_limit() -> Option<usize> {
        Some(MAX_PLIES)
    }

    fn games_per_eval() -> (n: usize) {
        6
    }

    fn io() -> (d: (usize, usize)) {
        (2 * PITS + 2, PITS)
    }

    fn ply_limit() -> (limit: Option<usize>) {
        Some(MAX_PLIES)
    }

    fn start() -> (game: Self) {
        proof {
            lemma_opening_total();
        }
        OwareGame { board: full_board() }
    }

    fn next_player(&self) -> (p: Player) {
        player_to_move(&self.board)
    }

    fn outcome(&self) -> (o: Option<Outcome>) {
        board_outcome(&self.board)
    }

    fn legal_moves(&self) -> (moves: Vec<usize>) {
        let mut moves: Vec<usize> = Vec::new();
        if self.outcome().is_some() {
            return moves;
        }
        let ghost keep = |pit: int| sowable(self.position().0, self.position().1, pit);
        for pit in 0..6usize
            invariant
                self.wf(),
                oware_outcome(self.position().0) is None,
                keep == (|pit: int| sowable(self.position().0, self.position().1, pit)),
                moves@ == ascending(pit as nat, keep).map_values(|pit: int| pit as usize),
        {
            if is_available(&self.board, pit).unwrap_or(false) {
                moves.push(pit);
            }
            assert(moves@ =~= ascending((pit + 1) as nat, keep).map_values(
                |pit: int| pit as usize,
            ));
        }
        moves
    }

    fn encode_board(&self, viewpoint: Player) -> (input: Vec<Ratio>) {
        let rival = viewpoint.other();
        let mut input: Vec<Ratio> = Vec::new();
        let ghost shown = seed_shares(self.position().0, viewpoint);
        for i in 0..6usize
            invariant
                shown == seed_shares(self.position().0, viewpoint),
                input@ == shown.take(i as int),
        {
            input.push(
                Ratio { num: get_seeds(&self.board, viewpoint, i) as i32, den: TOTAL_SEEDS },
            );
            assert(input@ =~= shown.take(i + 1));
        }
        for i in 0..6usize
            invariant
                rival == viewpoint.rival(),
                shown == seed_shares(self.position().0, viewpoint),
                input@ == shown.take(6 + i),
        {
            input.push(Ratio { num: get_seeds(&self.board, rival, i) as i32, den: TOTAL_SEEDS });
            assert(input@ =~= shown.take(6 + i + 1));
        }
        input.push(Ratio { num: get_captured(&self.board, viewpoint) as i32, den: TOTAL_SEEDS });
        input.push(Ratio { num: get_captured(&self.board, rival) as i32, den: TOTAL_SEEDS });
        assert(input@ =~= shown);
        input
    }

    fn weigh(&self, reply: &Vec<u64>, m: usize) -> (w: u64) {
        proof {
            lemma_choices(self.position().0, self.position().1, m);
        }
        reply[m]
    }

    fn play(&mut self, m: usize) {
        proof {
            lemma_choices(self.position().0, self.position().1, m);
        }
        let sown = sow(&mut self.board, m);
        assert(sown);
    }

    fn score(&self, learner: Player) -> (points: Ratio) {
        let outcome = self.outcome();
        if outcome.is_some() {
            score_outcome(outcome, learner)
        } else {
            proof {
                lemma_captured(self.position().0);
            }
            let own: u8 = get_captured(&self.board, learner);
            let rival: u8 = get_captured(&self.board, learner.other());
            let both: u8 = own + rival;
            if both == 0 {
                Ratio { num: 1, den: 2 }
            } else {
                Ratio { num: own as i32, den: both as i32 }
            }
        }
    }

    fn lone_choice() -> (b: bool) {
        false
    }
}

/// The digits that a display shows.
pub const OWARE_DIGITS: [char; 10] = ['🯰', '🯱', '🯲', '🯳', '🯴', '🯵', '🯶', '🯷', '🯸', '🯹'];

/// What a display shows for a number that has more than one digit.
pub const OWARE_OVER: char = '🮯';

/// What a display shows for the number `n`.
pub open spec fn shown(n: int) -> char {
    if 0 <= n <= 9 {
        OWARE_DIGITS@[n]
    } else {
        OWARE_OVER
    }
}

/// Returns what a display shows for the number `n`.
pub fn oware_digit(n: u32) -> (c: char)
    ensures
        c == shown(n as int),
{
    if n <= 9 {
        OWARE_DIGITS[n as usize]
    } else {
        OWARE_OVER
    }
}

/// The pits of `player`, from the first on.
pub open spec fn pits_text(seeds: Seq<u8>, player: Player) -> Seq<char> {
    Seq::new(6, |pit: int| shown(pit_seeds(seeds, player, pit) as int))
}

/// What a terminal shows for `seeds`, from the top of the screen: the pits of `B` from
/// the last to the first, below them those of `A`, so that the players face each other,
/// and next to them what each has captured.
pub open spec fn oware_text(seeds: Seq<u8>) -> Seq<char> {
    "\x1b[H"@ + "B "@ + pits_text(seeds, Player::B).reverse() + seq![
        ' ',
        shown(captured(seeds, Player::B) as int),
        '\n',
    ] + "A "@ + pits_text(seeds, Player::A) + seq![
        ' ',
        shown(captured(seeds, Player::A) as int),
        '\n',
        '\n',
    ]
}

/// Draws the board of `game`.
pub fn render_oware(game: &OwareGame) -> (out: String)
    requires
        game.wf(),
    ensures
        out@ == oware_text(game.position().0),
{
    let ghost seeds = game.position().0;
    let mut out = String::from_str("\x1b[H");
    out.append("B ");
    let ghost top = out@;
    let ghost far = pits_text(seeds, Player::B).reverse();
    for i in 0..PITS
        invariant
            seeds == game.position().0,
            far == pits_text(seeds, Player::B).reverse(),
            out@ == top + far.take(i as int),
    {
        out.push(oware_digit(get_seeds(&game.board, Player::B, PITS - 1 - i) as u32));
        assert(out@ =~= top + far.take(i + 1));
    }
    assert(far.take(6) =~= far);
    let ghost middle = out@;
    out.push(' ');
    out.push(oware_digit(get_captured(&game.board, Player::B) as u32));
    out.push('\n');
    assert(out@ =~= middle + seq![' ', shown(captured(seeds, Player::B) as int), '\n']);
    out.append("A ");
    let ghost below = out@;
    let ghost near = pits_text(seeds, Player::A);
    for i in 0..PITS
        invariant
            seeds == game.position().0,
            near == pits_text(seeds, Player::A),
            out@ == below + near.take(i as int),
    {
        out.push(oware_digit(get_seeds(&game.board, Player::A, i) as u32));
        assert(out@ =~= below + near.take(i + 1));
    }
    assert(near.take(6) =~= near);
    let ghost bottom = out@;
    out.push(' ');
    out.push(oware_digit(get_captured(&game.board, Player::A) as u32));
    out.push('\n');
    out.push('\n');
    assert(out@ =~= bottom + seq![' ', shown(captured(seeds, Player::A) as int), '\n', '\n']);
    out
}

/// In a game in order no seed is ever lost or gained.
pub proof fn seeds_are_conserved(game: OwareGame)
    requires
        game.wf(),
    ensures
        game.position().0.len() == 14,
        total(game.position().0) == TOTAL_SEEDS,
{
}

/// The players share one point, whether the game is finished or not.
pub proof fn games_share_a_point(seeds: Seq<u8>, learner: Player)
    ensures
        share_a_point(oware_points(seeds, learner), oware_points(seeds, learner.rival())),
{
    if oware_outcome(seeds) is Some {
        finished_games_share_a_point(oware_outcome(seeds)->0, learner);
    } else {
        let own = captured(seeds, learner) as int;
        let rival = captured(seeds, learner.rival()) as int;
        let both = own + rival;
        let a = oware_points(seeds, learner);
        let b = oware_points(seeds, learner.rival());
        assert(both > 0 ==> a.num == own && a.den == both && b.num == rival && b.den == both);
        assert(own * both + rival * both == both * both) by (nonlinear_arith)
            requires
                both == own + rival,
        ;
    }
}

/// The two players see the same board with the sides swapped.
pub proof fn viewpoints_swap_sides(seeds: Seq<u8>, viewpoint: Player, i: int)
    requires
        0 <= i < 6,
    ensures
        seed_shares(seeds, viewpoint.rival())[i] == seed_shares(seeds, viewpoint)[i + 6],
        seed_shares(seeds, viewpoint.rival())[i + 6] == seed_shares(seeds, viewpoint)[i],
        seed_shares(seeds, viewpoint.rival())[12] == seed_shares(seeds, viewpoint)[13],
        seed_shares(seeds, viewpoint.rival())[13] == seed_shares(seeds, viewpoint)[12],
{
}

/// A player who has captured more than half of the seeds has won, and half of them each is a
/// draw; anything less ends nothing.
pub proof fn half_of_the_seeds_decide(seeds: Seq<u8>, turn: Player)
    ensures
        ({
            let outcome = OwareGame::outcome_of((seeds, turn));
            &&& seeds[12] > 24 ==> outcome == Some(Outcome::WonBy(Player::A))
            &&& seeds[12] <= 24 && seeds[13] > 24 ==> outcome == Some(Outcome::WonBy(Player::B))
            &&& seeds[12] == 24 && seeds[13] == 24 ==> outcome == Some(Outcome::Draw)
            &&& seeds[12] <= 24 && seeds[13] <= 24 && seeds[12] + seeds[13] < 48 ==> outcome is None
        }),
{
}

/// The winner scores a point, the loser nothing, and a draw is worth half a point.
pub proof fn winners_score(position: (Seq<u8>, Player), p: Player)
    ensures
        OwareGame::outcome_of(position) == Some(Outcome::WonBy(p)) ==> {
            &&& OwareGame::points(position, p) == (Ratio { num: 1, den: 1 })
            &&& OwareGame::points(position, p.rival()) == (Ratio { num: 0, den: 1 })
        },
        OwareGame::outcome_of(position) == Some(Outcome::Draw) ==> {
            OwareGame::points(position, p) == (Ratio { num: 1, den: 2 })
        },
{
}

/// Capturing more than half of the seeds is worth a point, and having less than the rival
/// then nothing. Where the game was stopped before, each player scores its share of what was
/// captured, and half a point where nothing was.
pub proof fn captures_score(seeds: Seq<u8>, turn: Player)
    ensures
        ({
            let a = OwareGame::points((seeds, turn), Player::A);
            let b = OwareGame::points((seeds, turn), Player::B);
            let both = seeds[12] + seeds[13];
            &&& seeds[12] > 24 ==> a == (Ratio { num: 1, den: 1 }) && b == (Ratio {
                num: 0,
                den: 1,
            })
            &&& seeds[12] <= 24 && seeds[13] > 24 ==> a == (Ratio { num: 0, den: 1 }) && b == (
            Ratio { num: 1, den: 1 })
            &&& seeds[12] == 24 && seeds[13] == 24 || both == 0 ==> a == (Ratio {
                num: 1,
                den: 2,
            }) && b == (Ratio { num: 1, den: 2 })
            &&& seeds[12] <= 24 && seeds[13] <= 24 && 0 < both < 48 ==> {
                &&& a.num == seeds[12] && a.den == both
                &&& b.num == seeds[13] && b.den == both
            }
        }),
{
}

/// The moves of an open game are the pits that hold seeds; where the rival has none, those
/// that hold enough of them to reach the rival. A finished game has none.
pub proof fn filled_pits_are_moves(seeds: Seq<u8>, turn: Player, pit: usize)
    ensures
        ({
            let own = |i: int|
                if turn == Player::A {
                    seeds[i]
                } else {
                    seeds[6 + i]
                };
            let theirs = |i: int|
                if turn == Player::A {
                    seeds[6 + i]
                } else {
                    seeds[i]
                };
            let starved = theirs(0) == 0 && theirs(1) == 0 && theirs(2) == 0 && theirs(3) == 0
                && theirs(4) == 0 && theirs(5) == 0;
            OwareGame::choices((seeds, turn)).contains(pit) <==> OwareGame::outcome_of(
                (seeds, turn),
            ) is None && pit < 6 && (if starved {
                pit + own(pit as int) >= 6
            } else {
                own(pit as int) > 0
            })
        }),
{
    let keep = |p: int| sowable(seeds, turn, p);
    let numbers = ascending(6, keep);
    lemma_ascending(6, keep);
    lemma_starved(seeds, turn);
    if OwareGame::choices((seeds, turn)).contains(pit) {
        lemma_choices(seeds, turn, pit);
    } else if OwareGame::outcome_of((seeds, turn)) is None && sowable(seeds, turn, pit as int) {
        assert(keep(pit as int));
        assert(numbers.contains(pit as int));
        let k = choose|k: int| 0 <= k < numbers.len() && numbers[k] == pit;
        assert(OwareGame::choices((seeds, turn))[k] == pit);
    }
}

/// The rival has seeds where one of its six pits has.
proof fn lemma_starved(seeds: Seq<u8>, mover: Player)
    ensures
        (exists|i: int| 0 <= i < 6 && #[trigger] pit_seeds(seeds, mover.rival(), i) > 0) <==> (
        pit_seeds(seeds, mover.rival(), 0) > 0 || pit_seeds(seeds, mover.rival(), 1) > 0
            || pit_seeds(seeds, mover.rival(), 2) > 0 || pit_seeds(seeds, mover.rival(), 3) > 0
            || pit_seeds(seeds, mover.rival(), 4) > 0 || pit_seeds(seeds, mover.rival(), 5) > 0),
{
    if exists|i: int| 0 <= i < 6 && #[trigger] pit_seeds(seeds, mover.rival(), i) > 0 {
        let i = choose|i: int| 0 <= i < 6 && #[trigger] pit_seeds(seeds, mover.rival(), i) > 0;
        assert(i == 0 || i == 1 || i == 2 || i == 3 || i == 4 || i == 5);
    }
}

/// Pits are considered in ascending order.
pub proof fn moves_come_in_order(seeds: Seq<u8>, turn: Player, i: int, j: int)
    requires
        0 <= i < j < OwareGame::choices((seeds, turn)).len(),
    ensures
        OwareGame::choices((seeds, turn))[i] < OwareGame::choices((seeds, turn))[j],
{
    let keep = |p: int| sowable(seeds, turn, p);
    lemma_ascending(6, keep);
    assert(0 <= ascending(6, keep)[i] < ascending(6, keep)[j] < 6);
}

/// A move is made by the player whose turn it is, from the pit that was chosen, and passes
/// the turn.
pub proof fn moves_sow_the_chosen_pit(seeds: Seq<u8>, turn: Player, pit: usize)
    ensures
        OwareGame::to_move((seeds, turn)) == turn,
        OwareGame::after((seeds, turn), pit).0 == oware_sown(seeds, turn, pit),
        OwareGame::after((seeds, turn), pit).1 != turn,
{
}

/// The pit that a network sows is a legal one, and its own output is not less than that of
/// any other legal pit; of equal ones it is the first.
pub proof fn networks_play_what_they_want_most(
    seeds: Seq<u8>,
    turn: Player,
    reply: Seq<u64>,
    k: int,
    j: int,
)
    requires
        is_first_best(weights::<OwareGame>(reply, OwareGame::choices((seeds, turn))), k),
        0 <= j < OwareGame::choices((seeds, turn)).len(),
        forall|pit: usize| #[trigger]
            OwareGame::choices((seeds, turn)).contains(pit) ==> rank(reply[pit as int]) is Some,
    ensures
        0 <= k < OwareGame::choices((seeds, turn)).len(),
        ({
            let (sown, other) = (
                OwareGame::choices((seeds, turn))[k],
                OwareGame::choices((seeds, turn))[j],
            );
            &&& !above(reply[other as int], reply[sown as int])
            &&& j < k ==> above(reply[sown as int], reply[other as int])
        }),
{
    let wishes = weights::<OwareGame>(reply, OwareGame::choices((seeds, turn)));
    assert(OwareGame::choices((seeds, turn)).contains(OwareGame::choices((seeds, turn))[0]));
    assert(OwareGame::choices((seeds, turn)).contains(OwareGame::choices((seeds, turn))[j]));
    the_greatest_wish_decides(wishes, k, j);
}

/// Each player is shown its own six pits, then those of the other, and then what it has
/// captured itself and what the other has, all as shares of forty-eight.
pub proof fn players_see_their_side(seeds: Seq<u8>, turn: Player, i: int)
    requires
        0 <= i < 6,
    ensures
        ({
            let a = OwareGame::picture((seeds, turn), Player::A);
            let b = OwareGame::picture((seeds, turn), Player::B);
            &&& a.len() == 14 && b.len() == 14
            &&& a[i].num == seeds[i] && a[i].den == 48
            &&& a[6 + i].num == seeds[6 + i] && a[6 + i].den == 48
            &&& a[12].num == seeds[12] && a[12].den == 48
            &&& a[13].num == seeds[13] && a[13].den == 48
            &&& b[i].num == seeds[6 + i] && b[i].den == 48
            &&& b[6 + i].num == seeds[i] && b[6 + i].den == 48
            &&& b[12].num == seeds[13] && b[12].den == 48
            &&& b[13].num == seeds[12] && b[13].den == 48
        }),
{
}

/// Games start with four seeds in each pit and nothing captured, with `A` to move, and stop
/// after two hundred moves. An evaluation takes six of them; networks have fourteen inputs
/// and six outputs, and every move is asked for.
pub proof fn games_are_set_up(i: int)
    requires
        0 <= i < 14,
    ensures
        OwareGame::opening().0.len() == 14,
        OwareGame::opening().0[i] == (if i < 12 {
            4u8
        } else {
            0u8
        }),
        OwareGame::opening().1 == Player::A,
        OwareGame::games() == 6,
        OwareGame::dims() == (14usize, 6usize),
        OwareGame::reply_size() == 6,
        OwareGame::move_limit() == Some(200usize),
        !OwareGame::plays_lone_choice(),
{
}

/// The total is that of all the places, one by one.
pub proof fn seeds_add_up(seeds: Seq<u8>, more: u8)
    ensures
        total(Seq::<u8>::empty()) == 0,
        total(seeds.push(more)) == total(seeds) + more,
{
    assert(seeds.push(more).drop_last() =~= seeds);
}

/// A number of one digit is shown by that digit, and any other by one sign.
pub proof fn digits_are_shown(n: int)
    ensures
        0 <= n <= 9 ==> shown(n) as int == 0x1FBF0 + n,
        n > 9 ==> shown(n) as int == 0x1FBAF,
{
    assert(OWARE_DIGITS@[0] as int == 0x1FBF0);
    assert(OWARE_DIGITS@[1] as int == 0x1FBF1);
    assert(OWARE_DIGITS@[2] as int == 0x1FBF2);
    assert(OWARE_DIGITS@[3] as int == 0x1FBF3);
    assert(OWARE_DIGITS@[4] as int == 0x1FBF4);
    assert(OWARE_DIGITS@[5] as int == 0x1FBF5);
    assert(OWARE_DIGITS@[6] as int == 0x1FBF6);
    assert(OWARE_DIGITS@[7] as int == 0x1FBF7);
    assert(OWARE_DIGITS@[8] as int == 0x1FBF8);
    assert(OWARE_DIGITS@[9] as int == 0x1FBF9);
}

/// On a display the pits of `B` stand in reverse above those of `A`, pit `i` of the one above
/// pit `5 - i` of the other, and behind each row stands what its player has captured.
pub proof fn players_face_each_other(seeds: Seq<u8>, i: int)
    requires
        0 <= i < 6,
    ensures
        ({
            let text = oware_text(seeds);
            &&& text.len() == 26
            &&& text.take(5) == seq!['\x1b', '[', 'H', 'B', ' ']
            &&& text[5 + i] == shown(seeds[11 - i] as int)
            &&& text[11] == ' ' && text[12] == shown(seeds[13] as int) && text[13] == '\n'
            &&& text[14] == 'A' && text[15] == ' '
            &&& text[16 + i] == shown(seeds[i] as int)
            &&& text[22] == ' ' && text[23] == shown(seeds[12] as int)
            &&& text[24] == '\n' && text[25] == '\n'
        }),
{
    reveal_strlit("\x1b[H");
    reveal_strlit("B ");
    reveal_strlit("A ");
    assert(oware_text(seeds).take(5) =~= seq!['\x1b', '[', 'H', 'B', ' ']);
}

} // verus!
