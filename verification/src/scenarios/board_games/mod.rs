//! Co-evolutionary board games: genomes are scored by playing one another.
pub mod ataxx;
pub mod connect4;
pub mod oware;
pub mod ttt;

use crate::bits::{above, exceeds, rank};
use crate::random::{random_range, range_draw, WyRng};
use crate::ratio::{quotient, Ratio};
use crate::share::Shareable;
use std::marker::PhantomData;
use std::sync::atomic::AtomicPtr;
use vstd::prelude::*;
use vstd::string::StringExecFns;

verus! {

/// One of the two players of a board game. `A` moves first.
#[derive(Clone, Copy, Debug, PartialEq, Eq, Structural)]
pub enum Player {
    A,
    B,
}

impl Player {
    /// The opponent of this player.
    pub open spec fn rival(self) -> Player {
        match self {
            Player::A => Player::B,
            Player::B => Player::A,
        }
    }

    /// Returns the opponent of this player.
    pub fn other(self) -> (p: Player)
        ensures
            p == self.rival(),
    {
        match self {
            Player::A => Player::B,
            Player::B => Player::A,
        }
    }
}

/// How a finished game ended.
#[derive(Clone, Copy, Debug, PartialEq, Eq, Structural)]
pub enum Outcome {
    WonBy(Player),
    Draw,
}

/// A square, by its column `x` and its row `y`.
#[derive(Clone, Copy, Debug, PartialEq, Eq, Structural)]
pub struct Cell {
    pub x: u8,
    pub y: u8,
}

/// The numbers below `n` that `keep` accepts, in ascending order.
pub open spec fn ascending(n: nat, keep: spec_fn(int) -> bool) -> Seq<int>
    decreases n,
{
    if n == 0 {
        Seq::empty()
    } else if keep(n - 1) {
        ascending((n - 1) as nat, keep).push(n - 1)
    } else {
        ascending((n - 1) as nat, keep)
    }
}

/// `ascending` lists exactly the accepted numbers, in ascending order.
pub proof fn lemma_ascending(n: nat, keep: spec_fn(int) -> bool)
    ensures
        forall|k: int| #[trigger] ascending(n, keep).contains(k) <==> 0 <= k < n && keep(k),
        forall|i: int|
            0 <= i < ascending(n, keep).len() ==> 0 <= #[trigger] ascending(n, keep)[i] < n && keep(
                ascending(n, keep)[i],
            ),
        forall|i: int, j: int|
            0 <= i < j < ascending(n, keep).len() ==> ascending(n, keep)[i] < ascending(
                n,
                keep,
            )[j],
    decreases n,
{
    if n > 0 {
        let before = ascending((n - 1) as nat, keep);
        let all = ascending(n, keep);
        lemma_ascending((n - 1) as nat, keep);
        assert forall|k: int| #[trigger] all.contains(k) <==> 0 <= k < n && keep(k) by {
            if all.contains(k) {
                let i = choose|i: int| 0 <= i < all.len() && all[i] == k;
                if i < before.len() {
                    assert(before[i] == k);
                    assert(before.contains(k));
                }
            }
            if 0 <= k < n && keep(k) {
                if k == n - 1 {
                    assert(all[all.len() - 1] == k);
                } else {
                    assert(before.contains(k));
                    let i = choose|i: int| 0 <= i < before.len() && before[i] == k;
                    assert(all[i] == k);
                }
            }
        }
    }
}

/// How many squares hold a stone.
pub open spec fn stones(tiles: Seq<Option<Player>>) -> nat
    decreases tiles.len(),
{
    if tiles.len() == 0 {
        0
    } else {
        stones(tiles.drop_last()) + (if tiles.last() is Some {
            1nat
        } else {
            0nat
        })
    }
}

/// Placing a stone on a free square adds one stone.
pub proof fn lemma_stones_update(tiles: Seq<Option<Player>>, i: int, p: Player)
    requires
        0 <= i < tiles.len(),
        tiles[i] is None,
    ensures
        stones(tiles.update(i, Some(p))) == stones(tiles) + 1,
        stones(tiles) < tiles.len(),
    decreases tiles.len(),
{
    let placed = tiles.update(i, Some(p));
    lemma_stones_bound(tiles.drop_last());
    if i == tiles.len() - 1 {
        assert(placed.drop_last() =~= tiles.drop_last());
    } else {
        assert(placed.drop_last() =~= tiles.drop_last().update(i, Some(p)));
        lemma_stones_update(tiles.drop_last(), i, p);
    }
}

/// There are no more stones than squares.
pub proof fn lemma_stones_bound(tiles: Seq<Option<Player>>)
    ensures
        stones(tiles) <= tiles.len(),
    decreases tiles.len(),
{
    if tiles.len() > 0 {
        lemma_stones_bound(tiles.drop_last());
    }
}

/// The player to move on a board where the players alternate and each move
/// places one stone.
pub open spec fn by_parity(tiles: Seq<Option<Player>>) -> Player {
    if stones(tiles) % 2 == 0 {
        Player::A
    } else {
        Player::B
    }
}

/// What a network sees of a board of stones: first the squares of `viewpoint`,
/// then those of its rival, one where a stone lies and zero elsewhere.
pub open spec fn two_planes(tiles: Seq<Option<Player>>, viewpoint: Player) -> Seq<Ratio> {
    Seq::new(
        2 * tiles.len(),
        |i: int|
            if i < tiles.len() {
                quotient(if tiles[i] == Some(viewpoint) { 1 } else { 0 }, 1)
            } else {
                quotient(if tiles[i - tiles.len()] == Some(viewpoint.rival()) { 1 } else { 0 }, 1)
            },
    )
}

/// Shows the stones `tiles` to a network, from the side of `viewpoint`.
pub(crate) fn encode_planes(tiles: &[Option<Player>], viewpoint: Player) -> (input: Vec<Ratio>)
    ensures
        input@ == two_planes(tiles@, viewpoint),
{
    let rival = viewpoint.other();
    let mut input: Vec<Ratio> = Vec::new();
    for i in 0..tiles.len()
        invariant
            input@.len() == i,
            rival == viewpoint.rival(),
            forall|k: int| 0 <= k < i ==> #[trigger] input@[k] == two_planes(tiles@, viewpoint)[k],
    {
        let own = match tiles[i] {
            Some(p) => p == viewpoint,
            None => false,
        };
        input.push(Ratio { num: if own { 1 } else { 0 }, den: 1 });
    }
    for i in 0..tiles.len()
        invariant
            input@.len() == tiles@.len() + i,
            rival == viewpoint.rival(),
            forall|k: int|
                0 <= k < tiles@.len() + i ==> #[trigger] input@[k] == two_planes(
                    tiles@,
                    viewpoint,
                )[k],
    {
        let theirs = match tiles[i] {
            Some(p) => p == rival,
            None => false,
        };
        input.push(Ratio { num: if theirs { 1 } else { 0 }, den: 1 });
    }
    input
}

/// The score of a finished game for `learner`: one for a win, a half for a draw
/// and nothing otherwise.
pub open spec fn outcome_points(outcome: Option<Outcome>, learner: Player) -> Ratio {
    match outcome {
        Some(Outcome::WonBy(p)) => if p == learner {
            quotient(1, 1)
        } else {
            quotient(0, 1)
        },
        Some(Outcome::Draw) => quotient(1, 2),
        None => quotient(0, 1),
    }
}

/// Scores `outcome` for `learner`.
pub fn score_outcome(outcome: Option<Outcome>, learner: Player) -> (points: Ratio)
    ensures
        points == outcome_points(outcome, learner),
{
    match outcome {
        Some(Outcome::WonBy(p)) => if p == learner {
            Ratio { num: 1, den: 1 }
        } else {
            Ratio { num: 0, den: 1 }
        },
        Some(Outcome::Draw) => Ratio { num: 1, den: 2 },
        None => Ratio { num: 0, den: 1 },
    }
}

/// What a terminal shows for a square.
pub open spec fn stone_char(tile: Option<Player>) -> char {
    match tile {
        Some(Player::A) => '░',
        Some(Player::B) => '▓',
        None => '·',
    }
}

/// What a terminal shows for the first `n` squares of a board that is `width` wide: the
/// squares of a row with a blank between each two, and a line break after each row.
pub open spec fn rows_text(tiles: Seq<Option<Player>>, n: nat, width: nat) -> Seq<char>
    decreases n,
{
    if n == 0 {
        Seq::empty()
    } else {
        rows_text(tiles, (n - 1) as nat, width) + (if (n - 1) as nat % width > 0 {
            seq![' ']
        } else {
            Seq::empty()
        }) + seq![stone_char(tiles[n - 1])] + (if (n - 1) as nat % width == width - 1 {
            seq!['\n']
        } else {
            Seq::empty()
        })
    }
}

/// What a terminal shows for a board that is `width` wide, from the top of the screen.
pub open spec fn board_text(tiles: Seq<Option<Player>>, width: nat) -> Seq<char> {
    "\x1b[H"@ + rows_text(tiles, tiles.len(), width) + seq!['\n']
}

/// Draws a board that is `width` wide.
pub(crate) fn render_board(tiles: &[Option<Player>], width: usize) -> (out: String)
    requires
        width > 0,
    ensures
        out@ == board_text(tiles@, width as nat),
{
    let mut out = String::from_str("\x1b[H");
    let ghost top = out@;
    for i in 0..tiles.len()
        invariant
            width > 0,
            out@ == top + rows_text(tiles@, i as nat, width as nat),
    {
        let col: usize = i % width;
        if col > 0 {
            out.push(' ');
        }
        out.push(
            match tiles[i] {
                Some(Player::A) => '░',
                Some(Player::B) => '▓',
                None => '·',
            },
        );
        if col == width - 1 {
            out.push('\n');
        }
        assert(out@ =~= top + rows_text(tiles@, (i + 1) as nat, width as nat));
    }
    out.push('\n');
    assert(out@ =~= board_text(tiles@, width as nat));
    out
}

/// Whether `best` is where a scan of `weights` for a strictly greater one ends:
/// the first of the greatest numbers, or the first weight where that is no number.
pub open spec fn is_first_best(weights: Seq<u64>, best: int) -> bool {
    &&& 0 <= best < weights.len()
    &&& rank(weights[0]) is None ==> best == 0
    &&& rank(weights[0]) is Some ==> {
        &&& rank(weights[best]) is Some
        &&& forall|i: int| #![trigger weights[i]]
            0 <= i < weights.len() ==> !above(weights[i], weights[best])
        &&& forall|i: int| #![trigger weights[i]]
            0 <= i < best && rank(weights[i]) is Some ==> above(weights[best], weights[i])
    }
}

/// A network that has replied wants exactly one move: at most one index is the first best.
pub proof fn first_best_is_unique(weights: Seq<u64>, a: int, b: int)
    requires
        is_first_best(weights, a),
        is_first_best(weights, b),
    ensures
        a == b,
{
    if rank(weights[0]) is Some {
        assert(!above(weights[a], weights[b]));
        assert(!above(weights[b], weights[a]));
    }
}

/// Game-specific logic for a co-evolutionary board-game scenario.
///
/// A game is played on positions. The specification functions say which moves a
/// position offers, where they lead and how it is shown and scored; the executable
/// methods carry that out. [`Match`] and [`CoEvolScenario`] provide the rest: whose
/// turn it is, alternating sides and the sampling of opponents.
pub trait CoEvolGame: Sized {
    /// What a player chooses between.
    type Move: Copy;

    /// The state of a game.
    type Position;

    /// The position that this game has reached.
    spec fn position(&self) -> Self::Position;

    /// Whether this game is in order.
    spec fn wf(&self) -> bool;

    /// The position that every game starts from.
    spec fn opening() -> Self::Position;

    /// The player whose turn it is at `p`.
    spec fn to_move(p: Self::Position) -> Player;

    /// How the game ended, where `p` ends it.
    spec fn outcome_of(p: Self::Position) -> Option<Outcome>;

    /// The moves on offer at `p`, in the order in which they are considered.
    spec fn choices(p: Self::Position) -> Seq<Self::Move>;

    /// Where the move `m` leads from `p`.
    spec fn after(p: Self::Position, m: Self::Move) -> Self::Position;

    /// What a network is shown of `p` from the side of `viewpoint`.
    spec fn picture(p: Self::Position, viewpoint: Player) -> Seq<Ratio>;

    /// How much a network that replied `reply` wants the move `m`.
    spec fn weight(reply: Seq<u64>, m: Self::Move) -> u64;

    /// What the game is worth to `learner` when it stops at `p`.
    spec fn points(p: Self::Position, learner: Player) -> Ratio;

    /// How many games an evaluation averages over.
    spec fn games() -> usize;

    /// How many numbers a network is shown and how many it puts out.
    spec fn dims() -> (usize, usize);

    /// How many numbers a reply holds at least. Further ones are ignored.
    spec fn reply_size() -> usize;

    /// Whether the only move on offer is played without asking the network.
    spec fn plays_lone_choice() -> bool;

    /// How many moves a scored game stops after, if it has such a limit.
    spec fn move_limit() -> Option<usize>;

    fn games_per_eval() -> (n: usize)
        ensures
            n == Self::games(),
            n > 0,
    ;

    fn io() -> (d: (usize, usize))
        ensures
            d == Self::dims(),
    ;

    fn ply_limit() -> (limit: Option<usize>)
        ensures
            limit == Self::move_limit(),
    ;

    fn start() -> (game: Self)
        ensures
            game.wf(),
            game.position() == Self::opening(),
    ;

    fn next_player(&self) -> (p: Player)
        requires
            self.wf(),
        ensures
            p == Self::to_move(self.position()),
    ;

    fn outcome(&self) -> (o: Option<Outcome>)
        requires
            self.wf(),
        ensures
            o == Self::outcome_of(self.position()),
    ;

    fn legal_moves(&self) -> (moves: Vec<Self::Move>)
        requires
            self.wf(),
        ensures
            moves@ == Self::choices(self.position()),
            Self::outcome_of(self.position()) is Some ==> moves@.len() == 0,
    ;

    fn encode_board(&self, viewpoint: Player) -> (input: Vec<Ratio>)
        requires
            self.wf(),
        ensures
            input@ == Self::picture(self.position(), viewpoint),
            input@.len() == Self::dims().0,
    ;

    fn weigh(&self, reply: &Vec<u64>, m: Self::Move) -> (w: u64)
        requires
            self.wf(),
            reply@.len() >= Self::reply_size(),
            Self::choices(self.position()).contains(m),
        ensures
            w == Self::weight(reply@, m),
    ;

    fn play(&mut self, m: Self::Move)
        requires
            old(self).wf(),
            Self::choices(old(self).position()).contains(m),
        ensures
            final(self).wf(),
            final(self).position() == Self::after(old(self).position(), m),
            Self::to_move(final(self).position()) == Self::to_move(old(self).position()).rival(),
    ;

    fn score(&self, learner: Player) -> (points: Ratio)
        requires
            self.wf(),
        ensures
            points == Self::points(self.position(), learner),
    ;

    fn lone_choice() -> (b: bool)
        ensures
            b == Self::plays_lone_choice(),
    ;
}

/// Whose network decides a move.
#[derive(Clone, Copy, Debug, PartialEq, Eq, Structural)]
pub enum Seat {
    Learner,
    Opponent,
}

/// What came of asking a match to go on.
#[derive(Debug)]
pub enum Ply {
    /// The match is over.
    Over,
    /// A move was made.
    Played,
    /// The network in `seat` has to be shown `input` and its reply handed to
    /// [`Match::reply`].
    Ask { seat: Seat, input: Vec<Ratio> },
}

/// The weights that the moves `moves` get from `reply`.
pub open spec fn weights<T: CoEvolGame>(reply: Seq<u64>, moves: Seq<T::Move>) -> Seq<u64> {
    Seq::new(moves.len(), |i: int| T::weight(reply, moves[i]))
}

/// One game between a learner and an opponent: another network, or chance.
pub struct Match<T: CoEvolGame> {
    /// The game itself.
    pub game: T,
    /// The side that the learner plays.
    pub learner: Player,
    /// Whether the opponent is a network.
    pub versus: bool,
    /// How many moves have been made, where that is limited.
    pub plies: usize,
    /// How many moves may be made.
    pub limit: Option<usize>,
}

impl<T: CoEvolGame> Match<T> {
    /// Whether no further move will be made.
    pub open spec fn is_over(&self) -> bool {
        ||| T::outcome_of(self.game.position()) is Some
        ||| self.limit matches Some(limit) && self.plies >= limit
        ||| T::choices(self.game.position()).len() == 0
    }

    /// The seat whose turn it is; `None` where chance moves.
    pub open spec fn seat(&self) -> Option<Seat> {
        if T::to_move(self.game.position()) == self.learner {
            Some(Seat::Learner)
        } else if self.versus {
            Some(Seat::Opponent)
        } else {
            None
        }
    }

    /// Whether the next move is forced and made without asking anyone.
    pub open spec fn is_forced(&self) -> bool {
        T::plays_lone_choice() && T::choices(self.game.position()).len() == 1
    }

    /// Whether the match waits for a network.
    pub open spec fn is_waiting(&self) -> bool {
        !self.is_over() && self.seat() is Some && !self.is_forced()
    }

    /// Whether this match is `before` with its `k`-th choice made.
    pub open spec fn follows(&self, before: Self, k: int) -> bool {
        let moves = T::choices(before.game.position());
        &&& self.game.wf()
        &&& self.game.position() == T::after(before.game.position(), moves[k])
        &&& self.learner == before.learner
        &&& self.versus == before.versus
        &&& self.limit == before.limit
        &&& self.plies == (if before.limit is Some {
            before.plies + 1
        } else {
            before.plies as int
        })
    }

    /// Sets up a scored game in which the learner plays `learner`.
    pub fn new(learner: Player, versus: bool) -> (m: Self)
        ensures
            m.game.wf(),
            m.game.position() == T::opening(),
            m.learner == learner,
            m.versus == versus,
            m.plies == 0,
            m.limit == T::move_limit(),
    {
        Match { game: T::start(), learner, versus, plies: 0, limit: T::ply_limit() }
    }

    /// Sets up a game for show, in which networks play both sides and which stops
    /// after `limit` moves. The learner's seat is that of player `A`.
    pub fn exhibition(limit: Option<usize>) -> (m: Self)
        ensures
            m.game.wf(),
            m.game.position() == T::opening(),
            m.learner == Player::A,
            m.versus,
            m.plies == 0,
            m.limit == limit,
    {
        Match { game: T::start(), learner: Player::A, versus: true, plies: 0, limit }
    }

    /// Picks the move that a network which replied `reply` wants most. Of equally
    /// wanted moves it picks the first on offer.
    pub fn network_move(&self, reply: &Vec<u64>) -> (m: Option<T::Move>)
        requires
            self.game.wf(),
            reply@.len() >= T::reply_size(),
        ensures
            m is None <==> T::choices(self.game.position()).len() == 0,
            m is Some ==> exists|k: int|
                #[trigger] is_first_best(
                    weights::<T>(reply@, T::choices(self.game.position())),
                    k,
                ) && m == Some(T::choices(self.game.position())[k]),
    {
        let legal = self.game.legal_moves();
        if legal.len() == 0 {
            return None;
        }
        let ghost wanted = weights::<T>(reply@, legal@);
        let mut best: usize = 0;
        assert(legal@.contains(legal@[0]));
        let mut best_score: u64 = self.game.weigh(reply, legal[0]);
        for i in 1..legal.len()
            invariant
                self.game.wf(),
                reply@.len() >= T::reply_size(),
                legal@ == T::choices(self.game.position()),
                wanted == weights::<T>(reply@, legal@),
                0 <= best < i <= legal@.len(),
                best_score == wanted[best as int],
                is_first_best(wanted.take(i as int), best as int),
        {
            assert(legal@.contains(legal@[i as int]));
            let score: u64 = self.game.weigh(reply, legal[i]);
            let ghost seen = wanted.take(i as int);
            let ghost more = wanted.take(i + 1);
            assert(more.drop_last() =~= seen);
            assert(forall|j: int| 0 <= j < i ==> more[j] == #[trigger] seen[j]);
            let ghost earlier = best as int;
            if exceeds(score, best_score) {
                best = i;
                best_score = score;
            }
            proof {
                if rank(more[0]) is Some {
                    assert forall|j: int| #![trigger more[j]] 0 <= j < more.len() implies !above(
                        more[j],
                        more[best as int],
                    ) by {
                        if j < i {
                            assert(!above(seen[j], seen[earlier]));
                        }
                    }
                    assert forall|j: int|
                        #![trigger more[j]]
                        0 <= j < best && rank(more[j]) is Some implies above(
                        more[best as int],
                        more[j],
                    ) by {
                        assert(!above(seen[j], seen[earlier]));
                    }
                }
            }
        }
        assert(wanted.take(legal@.len() as int) =~= wanted);
        Some(legal[best])
    }

    /// Picks a move by chance.
    pub fn random_move(&self, rng: &mut WyRng) -> (m: Option<T::Move>)
        requires
            self.game.wf(),
        ensures
            T::choices(self.game.position()).len() == 0 ==> m is None && final(rng).state == old(
                rng,
            ).state,
            T::choices(self.game.position()).len() > 0 ==> {
                let moves = T::choices(self.game.position());
                let (k, state) = range_draw(old(rng).state, moves.len() as usize);
                &&& k < moves.len()
                &&& m == Some(moves[k as int])
                &&& final(rng).state == state
            },
    {
        let legal = self.game.legal_moves();
        if legal.len() == 0 {
            None
        } else {
            let k: usize = random_range(rng, legal.len());
            Some(legal[k])
        }
    }

    /// Goes on for as long as no network has to be asked, by one move at most.
    pub fn advance(&mut self, rng: &mut WyRng) -> (ply: Ply)
        requires
            old(self).game.wf(),
        ensures
            final(self).game.wf(),
            old(self).is_over() ==> {
                &&& ply is Over
                &&& *final(self) == *old(self)
                &&& final(rng).state == old(rng).state
            },
            !old(self).is_over() && old(self).seat() is None ==> {
                let (k, state) = range_draw(
                    old(rng).state,
                    T::choices(old(self).game.position()).len() as usize,
                );
                &&& ply is Played
                &&& k < T::choices(old(self).game.position()).len()
                &&& final(self).follows(*old(self), k as int)
                &&& final(rng).state == state
            },
            !old(self).is_over() && old(self).seat() is Some && old(self).is_forced() ==> {
                &&& ply is Played
                &&& final(self).follows(*old(self), 0)
                &&& final(rng).state == old(rng).state
            },
            old(self).is_waiting() ==> {
                &&& ply matches Ply::Ask { seat, input }
                &&& Some(seat) == old(self).seat()
                &&& input@ == T::picture(
                    old(self).game.position(),
                    T::to_move(old(self).game.position()),
                )
                &&& *final(self) == *old(self)
                &&& final(rng).state == old(rng).state
            },
    {
        let finished = match self.limit {
            Some(limit) => self.plies >= limit,
            None => false,
        };
        if finished || self.game.outcome().is_some() {
            return Ply::Over;
        }
        let mover = self.game.next_player();
        let legal = self.game.legal_moves();
        if legal.len() == 0 {
            return Ply::Over;
        }
        assert(legal@.contains(legal@[0]));
        if mover != self.learner && !self.versus {
            let drawn = self.random_move(rng);
            if let Some(m) = drawn {
                assert(T::choices(self.game.position()).contains(m));
                self.game.play(m);
                self.count_ply();
            }
            Ply::Played
        } else if T::lone_choice() && legal.len() == 1 {
            self.game.play(legal[0]);
            self.count_ply();
            Ply::Played
        } else {
            let seat = if mover == self.learner {
                Seat::Learner
            } else {
                Seat::Opponent
            };
            Ply::Ask { seat, input: self.game.encode_board(mover) }
        }
    }

    /// Makes the move that the network which was asked wants most.
    pub fn reply(&mut self, reply: &Vec<u64>)
        requires
            old(self).game.wf(),
            old(self).is_waiting(),
            reply@.len() >= T::reply_size(),
        ensures
            final(self).game.wf(),
            exists|k: int|
                #[trigger] is_first_best(
                    weights::<T>(reply@, T::choices(old(self).game.position())),
                    k,
                ) && final(self).follows(*old(self), k),
    {
        let wanted = self.network_move(reply);
        if let Some(m) = wanted {
            let ghost k = choose|k: int|
                #[trigger] is_first_best(
                    weights::<T>(reply@, T::choices(self.game.position())),
                    k,
                ) && m == T::choices(self.game.position())[k];
            assert(T::choices(self.game.position()).contains(m));
            self.game.play(m);
            self.count_ply();
            assert(self.follows(*old(self), k));
        }
    }

    /// Counts a move where moves are limited.
    fn count_ply(&mut self)
        requires
            old(self).limit matches Some(limit) ==> old(self).plies < limit,
        ensures
            final(self).game == old(self).game,
            final(self).learner == old(self).learner,
            final(self).versus == old(self).versus,
            final(self).limit == old(self).limit,
            final(self).plies == (if old(self).limit is Some {
                old(self).plies + 1
            } else {
                old(self).plies as int
            }),
    {
        if self.limit.is_some() {
            self.plies = self.plies + 1;
        }
    }

    /// Scores the game as it stands for the learner.
    pub fn score(&self) -> (points: Ratio)
        requires
            self.game.wf(),
        ensures
            points == T::points(self.game.position(), self.learner),
    {
        self.game.score(self.learner)
    }
}

/// The side that the learner plays in game `i` of an evaluation.
pub open spec fn side(i: nat) -> Player {
    if i % 2 == 0 {
        Player::A
    } else {
        Player::B
    }
}

/// The opponents that an evaluation draws from a pool of `pool` with a generator in
/// state `state`, one for each of `games` games, and the state that is left.
pub open spec fn sampled(state: u64, pool: usize, games: nat) -> (Seq<usize>, u64)
    decreases games,
{
    if pool == 0 || games == 0 {
        (Seq::empty(), state)
    } else {
        let (earlier, s) = sampled(state, pool, (games - 1) as nat);
        let (k, left) = range_draw(s, pool);
        (earlier.push(k), left)
    }
}

/// One game to be played in an evaluation.
#[derive(Clone, Copy, Debug, PartialEq, Eq, Structural)]
pub struct Pairing {
    /// The side that the learner plays.
    pub learner: Player,
    /// Where in the pool the opponent is; `None` where chance plays it.
    pub opponent: Option<usize>,
}

/// How game `i` of an evaluation against `opponents` is played: the learner's side changes
/// from game to game, and the opponents take turns. Without opponents chance plays.
pub open spec fn paired(opponents: Seq<usize>, i: int) -> Pairing {
    Pairing {
        learner: side(i as nat),
        opponent: if opponents.len() == 0 {
            None
        } else {
            Some(opponents[i % opponents.len() as int])
        },
    }
}

/// The games that a genome plays to be scored, and the generator they draw from.
pub struct Evaluation {
    /// The generator.
    pub rng: WyRng,
    /// Where in the pool the opponents are; empty where the pool was.
    pub opponents: Vec<usize>,
}

impl Evaluation {
    /// Tells how game `i` of this evaluation is played.
    pub fn pairing(&self, i: usize) -> (p: Pairing)
        ensures
            p == paired(self.opponents@, i as int),
    {
        let learner = if i % 2 == 0 {
            Player::A
        } else {
            Player::B
        };
        if self.opponents.len() == 0 {
            Pairing { learner, opponent: None }
        } else {
            Pairing { learner, opponent: Some(self.opponents[i % self.opponents.len()]) }
        }
    }
}

/// A game played against a pool of champions `G`.
///
/// A scenario holds no game and can be shared between threads whatever the game is like.
#[verifier::reject_recursive_types(T)]
pub struct CoEvolScenario<T, G> {
    /// The champions that opponents are drawn from.
    pub pool: Vec<G>,
    /// The seed of the next evaluation.
    pub seed_counter: u64,
    /// The game that is played.
    pub game: PhantomData<AtomicPtr<T>>,
}

impl<T, G: Send + Sync> Shareable for CoEvolScenario<T, G> {

}

impl<T: CoEvolGame, G> CoEvolScenario<T, G> {
    /// A scenario whose evaluations are seeded from `base_seed` upwards.
    pub fn new(pool: Vec<G>, base_seed: u64) -> (s: Self)
        ensures
            s.pool == pool,
            s.seed_counter == base_seed,
    {
        CoEvolScenario { pool, seed_counter: base_seed, game: PhantomData }
    }

    /// How many numbers a network is shown and how many it puts out.
    pub fn io(&self) -> (d: (usize, usize))
        ensures
            d == T::dims(),
    {
        T::io()
    }

    /// How many games [`CoEvolScenario::eval`] asks for.
    pub fn games(&self) -> (n: usize)
        ensures
            n == T::games(),
            n > 0,
    {
        T::games_per_eval()
    }

    /// Begins an evaluation: takes the next seed and draws the opponents.
    pub fn eval(&mut self) -> (e: Evaluation)
        ensures
            final(self).pool == old(self).pool,
            final(self).seed_counter == old(self).seed_counter.wrapping_add(1),
            (e.opponents@, e.rng.state) == sampled(
                old(self).seed_counter,
                old(self).pool@.len() as usize,
                T::games() as nat,
            ),
            forall|i: int|
                0 <= i < e.opponents@.len() ==> #[trigger] e.opponents@[i] < old(self).pool@.len(),
            e.opponents@.len() == (if old(self).pool@.len() == 0 {
                0
            } else {
                T::games() as nat
            }),
    {
        let seed: u64 = self.seed_counter;
        self.seed_counter = self.seed_counter.wrapping_add(1);
        let mut rng = WyRng::seeded(seed);
        let mut opponents: Vec<usize> = Vec::new();
        let size: usize = self.pool.len();
        let games: usize = T::games_per_eval();
        if size > 0 {
            for i in 0..games
                invariant
                    size > 0,
                    (opponents@, rng.state) == sampled(seed, size, i as nat),
                    opponents@.len() == i,
                    forall|j: int|
                        0 <= j < opponents@.len() ==> #[trigger] opponents@[j] < size,
            {
                opponents.push(random_range(&mut rng, size));
            }
        }
        Evaluation { rng, opponents }
    }

    /// Tells how each game of the evaluation `e` is played. The score of the evaluation is
    /// the average over all of them.
    pub fn pairings(&self, e: &Evaluation) -> (list: Vec<Pairing>)
        ensures
            list@ == Seq::new(T::games() as nat, |i: int| paired(e.opponents@, i)),
    {
        let mut list: Vec<Pairing> = Vec::new();
        let games: usize = T::games_per_eval();
        for i in 0..games
            invariant
                list@ == Seq::new(i as nat, |i: int| paired(e.opponents@, i)),
        {
            list.push(e.pairing(i));
            assert(list@ =~= Seq::new((i + 1) as nat, |i: int| paired(e.opponents@, i)));
        }
        list
    }
}

/// How many champions the hall of fame keeps.
pub const HALL_OF_FAME_MAX: usize = 64;

/// The newest `HALL_OF_FAME_MAX` of `champions`, oldest first.
pub open spec fn newest<G>(champions: Seq<G>) -> Seq<G> {
    if champions.len() > HALL_OF_FAME_MAX {
        champions.skip(champions.len() - HALL_OF_FAME_MAX)
    } else {
        champions
    }
}

/// Admits the fittest genome of a generation to the hall of fame and drops the
/// oldest champions beyond its capacity.
pub fn refresh_hook<G>(pool: &mut Vec<G>, fittest: Option<G>)
    ensures
        fittest is None ==> final(pool)@ == old(pool)@,
        fittest matches Some(champion) ==> final(pool)@ == newest(old(pool)@.push(champion)),
{
    if let Some(champion) = fittest {
        pool.push(champion);
        let ghost all = pool@;
        let drop_n: usize = pool.len().saturating_sub(HALL_OF_FAME_MAX);
        let mut dropped: usize = 0;
        while dropped < drop_n
            invariant
                dropped <= drop_n <= all.len(),
                pool@ == all.skip(dropped as int),
            decreases drop_n - dropped,
        {
            pool.remove(0);
            dropped = dropped + 1;
            assert(pool@ =~= all.skip(dropped as int));
        }
        assert(all.skip(0) =~= all);
    }
}

/// Whether the two scores make up exactly one point together.
pub open spec fn share_a_point(a: Ratio, b: Ratio) -> bool {
    a.den > 0 && b.den > 0 && a.num * b.den + b.num * a.den == a.den * b.den
}

/// The players of a finished game share one point.
pub proof fn finished_games_share_a_point(outcome: Outcome, learner: Player)
    ensures
        share_a_point(
            outcome_points(Some(outcome), learner),
            outcome_points(Some(outcome), learner.rival()),
        ),
{
}

/// The two players see the same board with the planes swapped, and no square in both.
pub proof fn viewpoints_swap_planes(tiles: Seq<Option<Player>>, viewpoint: Player)
    ensures
        two_planes(tiles, viewpoint.rival()) == two_planes(tiles, viewpoint).skip(
            tiles.len() as int,
        ) + two_planes(tiles, viewpoint).take(tiles.len() as int),
        forall|i: int|
            0 <= i < tiles.len() ==> #[trigger] two_planes(tiles, viewpoint)[i].num == 0
                || two_planes(tiles, viewpoint)[i + tiles.len()].num == 0,
{
    assert(two_planes(tiles, viewpoint.rival()) =~= two_planes(tiles, viewpoint).skip(
        tiles.len() as int,
    ) + two_planes(tiles, viewpoint).take(tiles.len() as int));
}

/// A learner changes sides from each game to the next, so that in an even number of games
/// it plays both sides equally often.
pub proof fn sides_alternate(i: nat)
    ensures
        side(0) == Player::A,
        side(i + 1) == side(i).rival(),
        side(2 * i) == Player::A && side(2 * i + 1) == Player::B,
{
}

/// The champions after `admitted` have been admitted one after the other to an empty hall
/// of fame.
pub open spec fn hall<G>(admitted: Seq<G>) -> Seq<G>
    decreases admitted.len(),
{
    if admitted.len() == 0 {
        Seq::empty()
    } else {
        newest(hall(admitted.drop_last()).push(admitted.last()))
    }
}

/// The hall of fame holds the newest champions of all that were ever admitted, and never
/// more than it has room for.
pub proof fn hall_keeps_the_newest<G>(admitted: Seq<G>)
    ensures
        hall(admitted) == newest(admitted),
        hall(admitted).len() <= HALL_OF_FAME_MAX,
        admitted.len() > 0 ==> hall(admitted).last() == admitted.last(),
    decreases admitted.len(),
{
    if admitted.len() > 0 {
        hall_keeps_the_newest(admitted.drop_last());
        assert(hall(admitted) =~= newest(admitted));
    }
}

/// Each move of a limited match uses up one of the moves that are left, and a match that
/// has used up all of them is over.
pub proof fn moves_use_up_the_limit<T: CoEvolGame>(before: Match<T>, after: Match<T>, k: int)
    requires
        before.limit is Some,
        !before.is_over(),
        after.follows(before, k),
    ensures
        after.limit == before.limit,
        before.limit->0 - after.plies == before.limit->0 - before.plies - 1,
        after.plies <= before.limit->0,
        after.plies == before.limit->0 ==> after.is_over(),
{
}

/// Of the moves of a network and of chance, exactly one kind is made at a time: a match
/// that is not over waits for a network, or makes its next move by itself.
pub proof fn matches_wait_or_move<T: CoEvolGame>(m: Match<T>)
    requires
        !m.is_over(),
    ensures
        m.is_waiting() || m.seat() is None || m.is_forced(),
        m.is_waiting() ==> m.seat() is Some && !m.is_forced(),
        m.versus ==> m.seat() is Some,
{
}

/// The rival of a player is the other one.
pub proof fn rivals_are_two(p: Player)
    ensures
        p.rival() != p,
        p.rival().rival() == p,
        Player::A.rival() == Player::B,
{
}

/// A player sees a one on exactly the squares that it holds itself, in the first half, and on
/// exactly the squares that the other player holds, in the second; everything else is zero.
pub proof fn planes_show_both_sides(tiles: Seq<Option<Player>>, viewpoint: Player, i: int)
    requires
        0 <= i < tiles.len(),
    ensures
        ({
            let shown = two_planes(tiles, viewpoint);
            let n = tiles.len() as int;
            &&& shown.len() == 2 * n
            &&& shown[i].den == 1 && shown[n + i].den == 1
            &&& shown[i].num == 0 || shown[i].num == 1
            &&& shown[n + i].num == 0 || shown[n + i].num == 1
            &&& shown[i].num == 1 <==> (tiles[i] is Some && tiles[i]->0 == viewpoint)
            &&& shown[n + i].num == 1 <==> (tiles[i] is Some && tiles[i]->0 != viewpoint)
        }),
{
}

/// A win is worth one point to the winner and nothing to the loser, a draw half a point to
/// each, and an open game nothing.
pub proof fn winning_is_worth_a_point(p: Player)
    ensures
        outcome_points(Some(Outcome::WonBy(p)), p) == (Ratio { num: 1, den: 1 }),
        outcome_points(Some(Outcome::WonBy(p)), p.rival()) == (Ratio { num: 0, den: 1 }),
        outcome_points(Some(Outcome::Draw), p) == (Ratio { num: 1, den: 2 }),
        outcome_points(None, p) == (Ratio { num: 0, den: 1 }),
{
}

/// Stones are counted square by square, and the players take turns, `A` first.
pub proof fn stones_are_counted(tiles: Seq<Option<Player>>, tile: Option<Player>)
    ensures
        stones(Seq::<Option<Player>>::empty()) == 0,
        tile is Some ==> stones(tiles.push(tile)) == stones(tiles) + 1,
        tile is None ==> stones(tiles.push(tile)) == stones(tiles),
        by_parity(tiles) == Player::A <==> stones(tiles) % 2 == 0,
        by_parity(tiles) == Player::B <==> stones(tiles) % 2 == 1,
{
    assert(tiles.push(tile).drop_last() =~= tiles);
}

/// No wish is greater than the one that decides, and every number before it is smaller. Where
/// the first wish is no number, it decides itself.
pub proof fn the_greatest_wish_decides(wishes: Seq<u64>, best: int, i: int)
    requires
        is_first_best(wishes, best),
        0 <= i < wishes.len(),
    ensures
        0 <= best < wishes.len(),
        rank(wishes[0]) is None ==> best == 0,
        rank(wishes[0]) is Some ==> rank(wishes[best]) is Some && !above(wishes[i], wishes[best]),
        rank(wishes[0]) is Some && rank(wishes[i]) is Some && i < best ==> above(
            wishes[best],
            wishes[i],
        ),
{
}

/// Where there are wishes, one of them decides.
pub proof fn some_wish_decides(wishes: Seq<u64>) -> (best: int)
    requires
        wishes.len() > 0,
    ensures
        is_first_best(wishes, best),
    decreases wishes.len(),
{
    if wishes.len() == 1 {
        0
    } else {
        let fewer = wishes.drop_last();
        let earlier = some_wish_decides(fewer);
        assert(forall|i: int| 0 <= i < fewer.len() ==> fewer[i] == #[trigger] wishes[i]);
        let last = wishes.len() - 1;
        let best = if above(wishes[last], wishes[earlier]) {
            last
        } else {
            earlier
        };
        if rank(wishes[0]) is Some {
            assert forall|i: int| #![trigger wishes[i]] 0 <= i < wishes.len() implies !above(
                wishes[i],
                wishes[best],
            ) by {
                if i < last {
                    assert(!above(fewer[i], fewer[earlier]));
                }
            }
            assert forall|i: int|
                #![trigger wishes[i]]
                0 <= i < best && rank(wishes[i]) is Some implies above(
                wishes[best],
                wishes[i],
            ) by {
                assert(!above(fewer[i], fewer[earlier]));
            }
        }
        best
    }
}

/// The weights are those of the moves, one by one.
pub proof fn moves_are_weighed_one_by_one<T: CoEvolGame>(
    reply: Seq<u64>,
    moves: Seq<T::Move>,
    i: int,
)
    requires
        0 <= i < moves.len(),
    ensures
        weights::<T>(reply, moves).len() == moves.len(),
        weights::<T>(reply, moves)[i] == T::weight(reply, moves[i]),
{
}

/// The learner's network moves on the learner's side; on the other side the opponent's does
/// where there is one, and chance where there is none.
pub proof fn seats_follow_the_turn<T: CoEvolGame>(m: Match<T>)
    ensures
        T::to_move(m.game.position()) == m.learner ==> m.seat() == Some(Seat::Learner),
        T::to_move(m.game.position()) != m.learner && m.versus ==> m.seat() == Some(
            Seat::Opponent,
        ),
        T::to_move(m.game.position()) != m.learner && !m.versus ==> m.seat() is None,
{
}

/// A match is over where its game has an outcome, its moves are used up or there is none to
/// make, and nowhere else. One that is not over waits for a network unless chance moves or
/// the only move is made without asking.
pub proof fn matches_end_for_a_reason<T: CoEvolGame>(m: Match<T>)
    ensures
        m.is_over() <==> (T::outcome_of(m.game.position()) is Some || (m.limit is Some && m.plies
            >= m.limit->0) || T::choices(m.game.position()).len() == 0),
        m.is_forced() <==> T::plays_lone_choice() && T::choices(m.game.position()).len() == 1,
        m.is_waiting() <==> !m.is_over() && m.seat() is Some && !m.is_forced(),
{
}

/// A move leads where the game says, and leaves everything else of the match as it was, but
/// for the count of moves where they are limited.
pub proof fn moves_lead_where_the_game_says<T: CoEvolGame>(
    before: Match<T>,
    after: Match<T>,
    k: int,
)
    requires
        after.follows(before, k),
    ensures
        after.game.wf(),
        after.game.position() == T::after(
            before.game.position(),
            T::choices(before.game.position())[k],
        ),
        after.learner == before.learner,
        after.versus == before.versus,
        after.limit == before.limit,
        before.limit is Some ==> after.plies == before.plies + 1,
        before.limit is None ==> after.plies == before.plies,
{
}

/// The opponents take turns: each of them plays once before the first one plays again, and
/// without any chance plays every game.
pub proof fn opponents_take_turns(opponents: Seq<usize>, i: int)
    requires
        i >= 0,
    ensures
        paired(opponents, i).learner == side(i as nat),
        opponents.len() == 0 ==> paired(opponents, i).opponent is None,
        0 <= i < opponents.len() ==> paired(opponents, i).opponent == Some(opponents[i]),
        opponents.len() > 0 ==> paired(opponents, i + opponents.len()).opponent == paired(
            opponents,
            i,
        ).opponent,
{
    if opponents.len() > 0 {
        let n = opponents.len() as int;
        vstd::arithmetic::div_mod::lemma_mod_multiples_vanish(1, i, n);
        assert(n * 1 + i == i + n);
        if i < n {
            vstd::arithmetic::div_mod::lemma_small_mod(i as nat, n as nat);
        }
    }
}

/// Opponents are drawn one after the other, each from the state that the draw before it left;
/// from an empty pool nothing is drawn.
pub proof fn opponents_are_drawn_in_a_row(state: u64, pool: usize, m: nat, n: nat)
    ensures
        sampled(state, pool, 0) == (Seq::<usize>::empty(), state),
        sampled(state, 0, m) == (Seq::<usize>::empty(), state),
        pool > 0 ==> sampled(state, pool, 1) == (
            seq![range_draw(state, pool).0],
            range_draw(state, pool).1,
        ),
        sampled(state, pool, m + n).0 == sampled(state, pool, m).0 + sampled(
            sampled(state, pool, m).1,
            pool,
            n,
        ).0,
        sampled(state, pool, m + n).1 == sampled(sampled(state, pool, m).1, pool, n).1,
    decreases n,
{
    reveal_with_fuel(sampled, 2);
    if pool > 0 {
        assert(sampled(state, pool, 1).0 =~= seq![range_draw(state, pool).0]);
    }
    if n == 0 {
        assert(sampled(state, pool, m).0 + Seq::<usize>::empty() =~= sampled(state, pool, m).0);
    } else {
        opponents_are_drawn_in_a_row(state, pool, m, (n - 1) as nat);
        if pool > 0 {
            assert(sampled(state, pool, m + n).0 =~= sampled(state, pool, m).0 + sampled(
                sampled(state, pool, m).1,
                pool,
                n,
            ).0);
        }
    }
}

/// Of all champions the newest sixty-four stay, in their order.
pub proof fn the_newest_stay<G>(champions: Seq<G>, i: int)
    ensures
        newest(champions).len() == (if champions.len() < 64 {
            champions.len()
        } else {
            64
        }),
        0 <= i < newest(champions).len() ==> newest(champions)[i] == champions[champions.len()
            - newest(champions).len() + i],
{
}

/// A display shows a light shade for the stones of `A`, a dark one for those of `B` and a dot
/// for a free square.
pub proof fn stones_have_their_shades()
    ensures
        stone_char(Some(Player::A)) as int == 0x2591,
        stone_char(Some(Player::B)) as int == 0x2593,
        stone_char(None) as int == 0xB7,
{
}

/// On a display every second character is a square, in their order; after the last square of
/// a row comes a line break, and after any other a blank.
pub proof fn squares_stand_in_rows(tiles: Seq<Option<Player>>, n: nat, width: nat, i: int)
    requires
        width > 0,
        0 <= i < n <= tiles.len(),
    ensures
        rows_text(tiles, n, width).len() == 2 * n - (if n % width == 0 {
            0int
        } else {
            1int
        }),
        rows_text(tiles, n, width)[2 * i] == stone_char(tiles[i]),
        (i + 1) % width as int == 0 ==> rows_text(tiles, n, width)[2 * i + 1] == '\n',
        (i + 1) % width as int != 0 && i + 1 < n ==> rows_text(tiles, n, width)[2 * i + 1] == ' ',
    decreases n,
{
    let before = (n - 1) as nat;
    lemma_row_ends(before, width);
    if before == 0 {
        assert(rows_text(tiles, 0, width) =~= Seq::empty());
        vstd::arithmetic::div_mod::lemma_small_mod(0, width);
    } else {
        squares_stand_in_rows(
            tiles,
            before,
            width,
            if i < before {
                i
            } else {
                0
            },
        );
        if i < before {
            lemma_row_ends(i as nat, width);
        }
    }
}

/// A row ends after a square exactly where the next number is a multiple of the width.
proof fn lemma_row_ends(i: nat, width: nat)
    requires
        width > 0,
    ensures
        (i + 1) % width == 0 <==> i % width == width - 1,
{
    let q = i / width;
    let r = i % width;
    vstd::arithmetic::div_mod::lemma_fundamental_div_mod(i as int, width as int);
    if r == width - 1 {
        assert(i + 1 == (q + 1) * width) by (nonlinear_arith)
            requires
                i == width * q + r,
                r == width - 1,
        ;
        vstd::arithmetic::div_mod::lemma_mod_multiples_basic((q + 1) as int, width as int);
    } else {
        assert(r + 1 < width) by {
            vstd::arithmetic::div_mod::lemma_mod_bound(i as int, width as int);
        }
        vstd::arithmetic::div_mod::lemma_fundamental_div_mod_converse_mod(
            (i + 1) as int,
            width as int,
            q as int,
            (r + 1) as int,
        );
    }
}

/// A board is drawn from the top of the screen, and an empty line follows it.
pub proof fn boards_are_drawn_from_the_top(tiles: Seq<Option<Player>>, width: nat)
    ensures
        board_text(tiles, width) == seq!['\x1b', '[', 'H'] + rows_text(
            tiles,
            tiles.len(),
            width,
        ) + seq!['\n'],
{
    reveal_strlit("\x1b[H");
    assert("\x1b[H"@ =~= seq!['\x1b', '[', 'H']);
}

} // verus!
