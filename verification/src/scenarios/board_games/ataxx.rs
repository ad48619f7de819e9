//! Ataxx on a seven by seven board.
use super::{
    ascending, board_text, encode_planes, is_first_best, lemma_ascending, outcome_points,
    planes_show_both_sides, render_board, score_outcome, the_greatest_wish_decides, two_planes,
    weights, Cell, CoEvolGame, Outcome, Player,
};
use crate::bits::{above, rank, NEG_INFINITY};
use crate::ratio::Ratio;
use board_game::board::{Board, BoardMoves};
use board_game::games::ataxx::AtaxxBoard;
use board_game::util::coord::Coord8;
use internal_iterator::InternalIterator;
use vstd::prelude::*;

verus! {

/// How many squares the board has.
pub const CELLS: usize = 49;

/// How many moves a game for show stops after.
pub const EXHIBITION_PLIES: usize = 200;

/// What is on a square.
#[derive(Clone, Copy, Debug, PartialEq, Eq, Structural)]
pub enum Square {
    Free,
    Gap,
    Held(Player),
}

/// A move: none at all, a new stone next to one's own, or a leap.
#[derive(Clone, Copy, Debug, PartialEq, Eq, Structural)]
pub enum AtaxxMove {
    Pass,
    Copy { to: Cell },
    Jump { from: Cell, to: Cell },
}

/// What a board knows besides its squares.
#[derive(Clone, Copy, Debug, PartialEq, Eq, Structural)]
pub struct AtaxxStatus {
    /// The player to move.
    pub next: Player,
    /// How many moves were made since the last copy.
    pub quiet: u8,
    /// How the game ended, if it has.
    pub outcome: Option<Outcome>,
}

/// The board of the `board-game` crate.
#[verifier::external_type_specification]
#[verifier::external_body]
pub struct ExAtaxxBoard(board_game::games::ataxx::AtaxxBoard);

/// The squares of `board`, row by row.
pub uninterp spec fn ataxx_squares(board: AtaxxBoard) -> Seq<Square>;

/// What `board` knows besides its squares.
pub uninterp spec fn ataxx_status(board: AtaxxBoard) -> AtaxxStatus;

/// Whether the square lies on the board.
pub open spec fn on_board(cell: Cell) -> bool {
    cell.x < 7 && cell.y < 7
}

/// The number of the square `cell`.
pub open spec fn number(cell: Cell) -> int {
    7 * cell.y + cell.x
}

/// The square with the number `i`.
pub open spec fn numbered(i: int) -> Cell {
    Cell { x: (i % 7) as u8, y: (i / 7) as u8 }
}

/// How far two coordinates are apart.
pub open spec fn gap(a: u8, b: u8) -> int {
    if a < b {
        b - a
    } else {
        a - b
    }
}

/// How many steps, straight or diagonal, two squares are apart.
pub open spec fn apart(a: Cell, b: Cell) -> int {
    if gap(a.x, b.x) < gap(a.y, b.y) {
        gap(a.y, b.y)
    } else {
        gap(a.x, b.x)
    }
}

/// Whether `player` could move from `from` to `to`.
pub open spec fn within_reach(squares: Seq<Square>, player: Player, from: Cell, to: Cell) -> bool {
    &&& on_board(from)
    &&& on_board(to)
    &&& squares[number(from)] == Square::Held(player)
    &&& squares[number(to)] == Square::Free
    &&& apart(from, to) <= 2
}

/// Whether `player` has anything to do but pass.
pub open spec fn can_move(squares: Seq<Square>, player: Player) -> bool {
    exists|from: Cell, to: Cell| within_reach(squares, player, from, to)
}

/// Whether `mover` may make the move `m` in an unfinished game.
pub open spec fn is_legal(squares: Seq<Square>, mover: Player, m: AtaxxMove) -> bool {
    match m {
        AtaxxMove::Pass => !can_move(squares, mover),
        AtaxxMove::Copy { to } => exists|from: Cell|
            #[trigger] within_reach(squares, mover, from, to) && apart(from, to) == 1,
        AtaxxMove::Jump { from, to } => within_reach(squares, mover, from, to) && apart(from, to)
            == 2,
    }
}

/// The jump with the number `k`: to the square `k / 49`, from the square `k % 49`.
pub open spec fn numbered_jump(k: int) -> AtaxxMove {
    AtaxxMove::Jump { from: numbered(k % 49), to: numbered(k / 49) }
}

/// The moves that `mover` has on `squares`, in the order in which the board lists them: a
/// pass, where there is nothing else; otherwise the copies by their squares, and then the
/// jumps by where they lead to and, for each such square, by where they start from.
pub open spec fn ataxx_moves(squares: Seq<Square>, mover: Player) -> Seq<AtaxxMove> {
    if !can_move(squares, mover) {
        seq![AtaxxMove::Pass]
    } else {
        ascending(
            49,
            |i: int| is_legal(squares, mover, AtaxxMove::Copy { to: numbered(i) }),
        ).map_values(|i: int| AtaxxMove::Copy { to: numbered(i) }) + ascending(
            2401,
            |k: int| is_legal(squares, mover, numbered_jump(k)),
        ).map_values(|k: int| numbered_jump(k))
    }
}

/// `squares` with a stone of `mover` on `to` and the rival's stones next to it taken
/// over.
pub open spec fn placed(squares: Seq<Square>, mover: Player, to: Cell) -> Seq<Square> {
    Seq::new(
        squares.len(),
        |i: int|
            if i == number(to) || (squares[i] == Square::Held(mover.rival()) && apart(
                numbered(i),
                to,
            ) == 1) {
                Square::Held(mover)
            } else {
                squares[i]
            },
    )
}

/// `squares` after `mover` made the move `m`.
pub open spec fn moved(squares: Seq<Square>, mover: Player, m: AtaxxMove) -> Seq<Square> {
    match m {
        AtaxxMove::Pass => squares,
        AtaxxMove::Copy { to } => placed(squares, mover, to),
        AtaxxMove::Jump { from, to } => placed(
            squares.update(number(from), Square::Free),
            mover,
            to,
        ),
    }
}

/// How many squares of `squares` are `kind`.
pub open spec fn tally(squares: Seq<Square>, kind: Square) -> nat
    decreases squares.len(),
{
    if squares.len() == 0 {
        0
    } else {
        tally(squares.drop_last(), kind) + (if squares.last() == kind {
            1nat
        } else {
            0nat
        })
    }
}

/// How the game stands after a move that placed a stone, with `quiet` moves since
/// the last copy.
pub open spec fn judged(squares: Seq<Square>, quiet: int) -> Option<Outcome> {
    let a = tally(squares, Square::Held(Player::A));
    let b = tally(squares, Square::Held(Player::B));
    if quiet >= 100 || (a == 0 && b == 0) {
        Some(Outcome::Draw)
    } else if a == 0 {
        Some(Outcome::WonBy(Player::B))
    } else if b == 0 {
        Some(Outcome::WonBy(Player::A))
    } else if can_move(squares, Player::A) || can_move(squares, Player::B) {
        None
    } else if a < b {
        Some(Outcome::WonBy(Player::B))
    } else if b < a {
        Some(Outcome::WonBy(Player::A))
    } else {
        Some(Outcome::Draw)
    }
}

/// What the board knows after the move `m`, which led to `squares`.
pub open spec fn status_after(
    status: AtaxxStatus,
    m: AtaxxMove,
    squares: Seq<Square>,
) -> AtaxxStatus {
    let quiet = if m is Copy {
        0
    } else {
        status.quiet + 1
    };
    AtaxxStatus {
        next: status.next.rival(),
        quiet: quiet as u8,
        outcome: if m is Pass {
            status.outcome
        } else {
            judged(squares, quiet)
        },
    }
}

/// The squares of the opening: each player holds two opposite corners.
pub open spec fn corners() -> Seq<Square> {
    Seq::new(
        49,
        |i: int|
            if i == 42 || i == 6 {
                Square::Held(Player::A)
            } else if i == 0 || i == 48 {
                Square::Held(Player::B)
            } else {
                Square::Free
            },
    )
}

/// The stones on `squares`.
pub open spec fn holders(squares: Seq<Square>) -> Seq<Option<Player>> {
    squares.map_values(
        |s: Square|
            match s {
                Square::Held(p) => Some(p),
                _ => None,
            },
    )
}

/// Calls `AtaxxBoard::diagonal` for a board of size seven, which gives each player
/// two opposite corners.
#[verifier::external_body]
fn diagonal_board() -> (board: AtaxxBoard)
    ensures
        ataxx_squares(board) == corners(),
        ataxx_status(board) == (AtaxxStatus { next: Player::A, quiet: 0, outcome: None }),
{
    AtaxxBoard::diagonal(7)
}

/// Calls `AtaxxBoard::tile`, which tells whose stone lies on a square.
#[verifier::external_body]
fn tile(board: &AtaxxBoard, cell: Cell) -> (t: Option<Player>)
    requires
        ataxx_squares(*board).len() == 49,
        on_board(cell),
    ensures
        t == holders(ataxx_squares(*board))[number(cell)],
{
    match board.tile(Coord8::from_xy(cell.x, cell.y)) {
        Some(board_game::board::Player::A) => Some(Player::A),
        Some(board_game::board::Player::B) => Some(Player::B),
        None => None,
    }
}

/// Calls `AtaxxBoard::next_player`, which tells whose turn it is.
#[verifier::external_body]
fn player_to_move(board: &AtaxxBoard) -> (p: Player)
    ensures
        p == ataxx_status(*board).next,
{
    match board.next_player() {
        board_game::board::Player::A => Player::A,
        board_game::board::Player::B => Player::B,
    }
}

/// Calls `AtaxxBoard::outcome`, which tells how the game ended.
#[verifier::external_body]
fn board_outcome(board: &AtaxxBoard) -> (o: Option<Outcome>)
    ensures
        o == ataxx_status(*board).outcome,
{
    match board.outcome() {
        Some(board_game::board::Outcome::WonBy(board_game::board::Player::A)) => Some(
            Outcome::WonBy(Player::A),
        ),
        Some(board_game::board::Outcome::WonBy(board_game::board::Player::B)) => Some(
            Outcome::WonBy(Player::B),
        ),
        Some(board_game::board::Outcome::Draw) => Some(Outcome::Draw),
        None => None,
    }
}

/// Calls `AtaxxBoard::available_moves` and collects what it hands out. It reports an
/// error on a finished board.
///
/// Claimed of the list: it is `ataxx_moves`. The board passes over its squares by rows and
/// columns, both ascending.
#[verifier::external_body]
fn available_moves(board: &AtaxxBoard) -> (moves: Option<Vec<AtaxxMove>>)
    requires
        ataxx_squares(*board).len() == 49,
    ensures
        moves is None <==> ataxx_status(*board).outcome is Some,
        moves matches Some(list) ==> list@ == ataxx_moves(
            ataxx_squares(*board),
            ataxx_status(*board).next,
        ),
{
    let mut list = Vec::new();
    let cell = |c: Coord8| Cell { x: c.x(), y: c.y() };
    board.available_moves().ok()?.for_each(|m| list.push(match m {
        board_game::games::ataxx::Move::Pass => AtaxxMove::Pass,
        board_game::games::ataxx::Move::Copy { to } => AtaxxMove::Copy { to: cell(to) },
        board_game::games::ataxx::Move::Jump { from, to } => AtaxxMove::Jump {
            from: cell(from),
            to: cell(to),
        },
    }));
    Some(list)
}

/// Calls `AtaxxBoard::play`, which makes a move where it is available and reports an
/// error, changing nothing, where it is not.
#[verifier::external_body]
fn make_move(board: &mut AtaxxBoard, m: AtaxxMove) -> (made: bool)
    requires
        ataxx_squares(*old(board)).len() == 49,
        ataxx_status(*old(board)).quiet < 255,
        m matches AtaxxMove::Copy { to } ==> on_board(to),
        m matches AtaxxMove::Jump { from, to } ==> on_board(from) && on_board(to),
    ensures
        made == (ataxx_status(*old(board)).outcome is None && is_legal(
            ataxx_squares(*old(board)),
            ataxx_status(*old(board)).next,
            m,
        )),
        made ==> {
            let squares = moved(ataxx_squares(*old(board)), ataxx_status(*old(board)).next, m);
            &&& ataxx_squares(*final(board)) == squares
            &&& ataxx_status(*final(board)) == status_after(ataxx_status(*old(board)), m, squares)
        },
        !made ==> {
            &&& ataxx_squares(*final(board)) == ataxx_squares(*old(board))
            &&& ataxx_status(*final(board)) == ataxx_status(*old(board))
        },
{
    let coord = |c: Cell| Coord8::from_xy(c.x, c.y);
    board.play(match m {
        AtaxxMove::Pass => board_game::games::ataxx::Move::Pass,
        AtaxxMove::Copy { to } => board_game::games::ataxx::Move::Copy { to: coord(to) },
        AtaxxMove::Jump { from, to } => board_game::games::ataxx::Move::Jump {
            from: coord(from),
            to: coord(to),
        },
    }).is_ok()
}

/// Returns the number of the square `cell`.
pub fn cell_index(cell: Cell) -> (i: usize)
    requires
        on_board(cell),
    ensures
        i == number(cell),
        i < 49,
{
    7 * cell.y as usize + cell.x as usize
}

/// The wish for the move `m` that a reply holds. The first half of a reply holds the
/// wish for a stone on each square, the second half the same wishes less the penalty
/// on reaching the square by a jump.
pub open spec fn wish(reply: Seq<u64>, m: AtaxxMove) -> u64 {
    match m {
        AtaxxMove::Pass => NEG_INFINITY,
        AtaxxMove::Copy { to } => reply[number(to)],
        AtaxxMove::Jump { to, .. } => reply[49 + number(to)],
    }
}

/// Scores the move `m` by the reply `reply`.
pub fn score_move(reply: &Vec<u64>, m: AtaxxMove) -> (w: u64)
    requires
        reply@.len() >= 98,
        m matches AtaxxMove::Copy { to } ==> on_board(to),
        m matches AtaxxMove::Jump { to, .. } ==> on_board(to),
    ensures
        w == wish(reply@, m),
{
    match m {
        AtaxxMove::Pass => NEG_INFINITY,
        AtaxxMove::Copy { to } => reply[cell_index(to)],
        AtaxxMove::Jump { to, .. } => reply[CELLS + cell_index(to)],
    }
}

/// What holds of every unfinished game: the clock has not run out, except that a
/// pass may have run it out for a player who can move, and somebody can move.
pub open spec fn goes_on(squares: Seq<Square>, status: AtaxxStatus) -> bool {
    &&& status.quiet < 100 || (status.quiet == 100 && can_move(squares, status.next))
    &&& can_move(squares, Player::A) || can_move(squares, Player::B)
}

/// A board lists exactly the legal moves.
pub proof fn lists_hold_the_legal_moves(squares: Seq<Square>, mover: Player, m: AtaxxMove)
    ensures
        ataxx_moves(squares, mover).contains(m) <==> is_legal(squares, mover, m),
{
    let is_copy = |i: int| is_legal(squares, mover, AtaxxMove::Copy { to: numbered(i) });
    let is_jump = |k: int| is_legal(squares, mover, numbered_jump(k));
    let copies = ascending(49, is_copy);
    let jumps = ascending(2401, is_jump);
    let all = ataxx_moves(squares, mover);
    lemma_ascending(49, is_copy);
    lemma_ascending(2401, is_jump);
    if !can_move(squares, mover) {
        assert(all[0] == AtaxxMove::Pass);
    } else {
        if all.contains(m) {
            let n = choose|n: int| 0 <= n < all.len() && all[n] == m;
            if n < copies.len() {
                assert(is_copy(copies[n]));
            } else {
                assert(is_jump(jumps[n - copies.len()]));
            }
        }
        if is_legal(squares, mover, m) {
            match m {
                AtaxxMove::Pass => {},
                AtaxxMove::Copy { to } => {
                    assert(on_board(to));
                    assert(numbered(number(to)) == to);
                    assert(is_copy(number(to)));
                    assert(copies.contains(number(to)));
                    let n = choose|n: int| 0 <= n < copies.len() && copies[n] == number(to);
                    assert(all[n] == m);
                },
                AtaxxMove::Jump { from, to } => {
                    let k = 49 * number(to) + number(from);
                    assert(numbered(number(to)) == to && numbered(number(from)) == from);
                    assert(k / 49 == number(to) && k % 49 == number(from));
                    assert(is_jump(k));
                    assert(jumps.contains(k));
                    let n = choose|n: int| 0 <= n < jumps.len() && jumps[n] == k;
                    assert(all[copies.len() + n] == m);
                },
            }
        }
    }
}

/// A board lists no move twice.
pub proof fn lists_hold_no_move_twice(squares: Seq<Square>, mover: Player)
    ensures
        ataxx_moves(squares, mover).no_duplicates(),
{
    let is_copy = |i: int| is_legal(squares, mover, AtaxxMove::Copy { to: numbered(i) });
    let is_jump = |k: int| is_legal(squares, mover, numbered_jump(k));
    let copies = ascending(49, is_copy);
    let jumps = ascending(2401, is_jump);
    let all = ataxx_moves(squares, mover);
    lemma_ascending(49, is_copy);
    lemma_ascending(2401, is_jump);
    if can_move(squares, mover) {
        assert forall|i: int, j: int| 0 <= i < j < all.len() implies all[i] != all[j] by {
            if j < copies.len() {
                lemma_numbered(copies[i], copies[j]);
            } else if i >= copies.len() {
                let a = jumps[i - copies.len()];
                let b = jumps[j - copies.len()];
                assert(a < b);
                lemma_numbered(a / 49, b / 49);
                lemma_numbered(a % 49, b % 49);
            }
        }
    }
}

/// Different numbers stand for different squares.
proof fn lemma_numbered(a: int, b: int)
    requires
        0 <= a < 49,
        0 <= b < 49,
    ensures
        numbered(a) == numbered(b) ==> a == b,
{
}

/// Ataxx as a co-evolutionary game.
pub struct AtaxxGame {
    board: AtaxxBoard,
}

impl AtaxxGame {
    /// Reads off the stones.
    fn tiles(&self) -> (tiles: Vec<Option<Player>>)
        requires
            self.wf(),
        ensures
            tiles@ == holders(self.position().0),
    {
        let ghost held = holders(self.position().0);
        let mut tiles: Vec<Option<Player>> = Vec::new();
        for y in 0..7u8
            invariant
                self.wf(),
                held == holders(self.position().0),
                tiles@ == held.take(7 * y),
        {
            for x in 0..7u8
                invariant
                    self.wf(),
                    y < 7,
                    held == holders(self.position().0),
                    tiles@ == held.take(7 * y + x),
            {
                tiles.push(tile(&self.board, Cell { x, y }));
                assert(tiles@ =~= held.take(7 * y + x + 1));
            }
        }
        assert(held.take(49) =~= held);
        tiles
    }
}

impl CoEvolGame for AtaxxGame {
    type Move = AtaxxMove;

    type Position = (Seq<Square>, AtaxxStatus);

    closed spec fn position(&self) -> (Seq<Square>, AtaxxStatus) {
        (ataxx_squares(self.board), ataxx_status(self.board))
    }

    closed spec fn wf(&self) -> bool {
        &&& self.position().0.len() == 49
        &&& self.position().1.outcome is None ==> goes_on(self.position().0, self.position().1)
    }

    open spec fn opening() -> (Seq<Square>, AtaxxStatus) {
        (corners(), AtaxxStatus { next: Player::A, quiet: 0, outcome: None })
    }

    open spec fn to_move(p: (Seq<Square>, AtaxxStatus)) -> Player {
        p.1.next
    }

    open spec fn outcome_of(p: (Seq<Square>, AtaxxStatus)) -> Option<Outcome> {
        p.1.outcome
    }

    open spec fn choices(p: (Seq<Square>, AtaxxStatus)) -> Seq<AtaxxMove> {
        if p.1.outcome is Some {
            Seq::empty()
        } else {
            ataxx_moves(p.0, p.1.next)
        }
    }

    open spec fn after(p: (Seq<Square>, AtaxxStatus), m: AtaxxMove) -> (Seq<Square>, AtaxxStatus) {
        (moved(p.0, p.1.next, m), status_after(p.1, m, moved(p.0, p.1.next, m)))
    }

    open spec fn picture(p: (Seq<Square>, AtaxxStatus), viewpoint: Player) -> Seq<Ratio> {
        two_planes(holders(p.0), viewpoint)
    }

    open spec fn weight(reply: Seq<u64>, m: AtaxxMove) -> u64 {
        wish(reply, m)
    }

    open spec fn points(p: (Seq<Square>, AtaxxStatus), learner: Player) -> Ratio {
        outcome_points(p.1.outcome, learner)
    }

    open spec fn games() -> usize {
        2
    }

    open spec fn dims() -> (usize, usize) {
        (98, 49)
    }

    open spec fn reply_size() -> usize {
        98
    }

    open spec fn plays_lone_choice() -> bool {
        true
    }

    open spec fn move_limit() -> Option<usize> {
        None
    }

    fn games_per_eval() -> (n: usize) {
        2
    }

    fn io() -> (d: (usize, usize)) {
        (2 * CELLS, CELLS)
    }

    fn ply_limit() -> (limit: Option<usize>) {
        None
    }

    fn start() -> (game: Self) {
        proof {
            assert(within_reach(corners(), Player::A, Cell { x: 6, y: 0 }, Cell { x: 5, y: 0 }));
        }
        AtaxxGame { board: diagonal_board() }
    }

    fn next_player(&self) -> (p: Player) {
        player_to_move(&self.board)
    }

    fn outcome(&self) -> (o: Option<Outcome>) {
        board_outcome(&self.board)
    }

    fn legal_moves(&self) -> (moves: Vec<AtaxxMove>) {
        match available_moves(&self.board) {
            Some(moves) => moves,
            None => Vec::new(),
        }
    }

    fn encode_board(&self, viewpoint: Player) -> (input: Vec<Ratio>) {
        encode_planes(self.tiles().as_slice(), viewpoint)
    }

    fn weigh(&self, reply: &Vec<u64>, m: AtaxxMove) -> (w: u64) {
        proof {
            lists_hold_the_legal_moves(self.position().0, self.position().1.next, m);
        }
        score_move(reply, m)
    }

    fn play(&mut self, m: AtaxxMove) {
        proof {
            lists_hold_the_legal_moves(self.position().0, self.position().1.next, m);
        }
        let made = make_move(&mut self.board, m);
        assert(made);
    }

    fn score(&self, learner: Player) -> (points: Ratio) {
        score_outcome(self.outcome(), learner)
    }

    fn lone_choice() -> (b: bool) {
        true
    }
}

/// Draws the board of `game`.
pub fn render_ataxx(game: &AtaxxGame) -> (out: String)
    requires
        game.wf(),
    ensures
        out@ == board_text(holders(game.position().0), 7),
{
    render_board(game.tiles().as_slice(), 7)
}

/// In a game in order somebody can move for as long as it goes on.
pub proof fn open_games_go_on(game: AtaxxGame)
    requires
        game.wf(),
    ensures
        game.position().0.len() == 49,
        game.position().1.outcome is None ==> goes_on(game.position().0, game.position().1),
{
}

/// There is a move to make, if only a pass, exactly while the game goes on.
pub proof fn open_games_have_moves(squares: Seq<Square>, status: AtaxxStatus)
    ensures
        AtaxxGame::choices((squares, status)).len() > 0 <==> AtaxxGame::outcome_of(
            (squares, status),
        ) is None,
{
    let mover = status.next;
    if status.outcome is None && can_move(squares, mover) {
        let (from, to) = choose|from: Cell, to: Cell| within_reach(squares, mover, from, to);
        assert(within_reach(squares, mover, from, to));
        if apart(from, to) == 0 {
            assert(from == to);
        } else if apart(from, to) == 1 {
            let m = AtaxxMove::Copy { to };
            assert(within_reach(squares, mover, from, m->Copy_to));
            lists_hold_the_legal_moves(squares, mover, m);
        } else {
            lists_hold_the_legal_moves(squares, mover, AtaxxMove::Jump { from, to });
        }
    }
}

/// Where two boards have the same free squares, they have equally many of them.
proof fn lemma_tally_free(a: Seq<Square>, b: Seq<Square>)
    requires
        a.len() == b.len(),
        forall|i: int|
            0 <= i < a.len() ==> (#[trigger] a[i] == Square::Free <==> b[i] == Square::Free),
    ensures
        tally(a, Square::Free) == tally(b, Square::Free),
    decreases a.len(),
{
    if a.len() > 0 {
        assert(a.last() == a[a.len() - 1] && b.last() == b[b.len() - 1]);
        assert forall|i: int| 0 <= i < a.len() - 1 implies (#[trigger] a.drop_last()[i]
            == Square::Free <==> b.drop_last()[i] == Square::Free) by {
            assert(a.drop_last()[i] == a[i]);
        }
        lemma_tally_free(a.drop_last(), b.drop_last());
    }
}

/// Changing one square changes the number of free ones by that square alone.
proof fn lemma_tally_update(squares: Seq<Square>, i: int, s: Square)
    requires
        0 <= i < squares.len(),
    ensures
        tally(squares.update(i, s), Square::Free) + (if squares[i] == Square::Free {
            1int
        } else {
            0int
        }) == tally(squares, Square::Free) + (if s == Square::Free {
            1int
        } else {
            0int
        }),
    decreases squares.len(),
{
    let changed = squares.update(i, s);
    if i == squares.len() - 1 {
        assert(changed.drop_last() =~= squares.drop_last());
    } else {
        assert(changed.drop_last() =~= squares.drop_last().update(i, s));
        lemma_tally_update(squares.drop_last(), i, s);
    }
}

/// A stone placed on a free square leaves one free square less.
proof fn lemma_placed(squares: Seq<Square>, mover: Player, to: Cell)
    requires
        squares.len() == 49,
        on_board(to),
        squares[number(to)] == Square::Free,
    ensures
        tally(placed(squares, mover, to), Square::Free) + 1 == tally(squares, Square::Free),
{
    let held = squares.update(number(to), Square::Held(mover));
    lemma_tally_update(squares, number(to), Square::Held(mover));
    lemma_tally_free(placed(squares, mover, to), held);
}

/// How long a game that has reached a position can still take.
pub open spec fn moves_left(squares: Seq<Square>, status: AtaxxStatus) -> int {
    tally(squares, Square::Free) * 102 + 101 - status.quiet
}

/// Every move shortens the time that a game can still take: a copy fills a free square, and
/// between two copies there is only room for so many other moves.
pub proof fn moves_shorten_the_game(squares: Seq<Square>, status: AtaxxStatus, m: AtaxxMove)
    requires
        squares.len() == 49,
        status.outcome is None,
        goes_on(squares, status),
        is_legal(squares, status.next, m),
    ensures
        ({
            let (next_squares, next_status) = AtaxxGame::after((squares, status), m);
            0 <= moves_left(next_squares, next_status) < moves_left(squares, status)
        }),
{
    match m {
        AtaxxMove::Pass => {},
        AtaxxMove::Copy { to } => {
            lemma_placed(squares, status.next, to);
        },
        AtaxxMove::Jump { from, to } => {
            lemma_tally_update(squares, number(from), Square::Free);
            lemma_placed(squares.update(number(from), Square::Free), status.next, to);
        },
    }
}

/// A game that goes on does so in an orderly way after every move, or ends.
pub proof fn games_stay_in_order(squares: Seq<Square>, status: AtaxxStatus, m: AtaxxMove)
    requires
        squares.len() == 49,
        status.outcome is None,
        goes_on(squares, status),
        is_legal(squares, status.next, m),
    ensures
        ({
            let (next_squares, next_status) = AtaxxGame::after((squares, status), m);
            &&& next_squares.len() == 49
            &&& next_status.outcome is None ==> goes_on(next_squares, next_status)
        }),
{
}

/// An empty board has as many free squares as squares.
proof fn lemma_tally_empty(n: nat)
    ensures
        tally(Seq::new(n, |i: int| Square::Free), Square::Free) == n,
    decreases n,
{
    let all = Seq::new(n, |i: int| Square::Free);
    if n > 0 {
        lemma_tally_empty((n - 1) as nat);
        assert(all.drop_last() =~= Seq::new((n - 1) as nat, |i: int| Square::Free));
    }
}

/// No game takes more moves than this.
pub proof fn games_are_bounded()
    ensures
        moves_left(AtaxxGame::opening().0, AtaxxGame::opening().1) == 4691,
{
    let empty = Seq::new(49, |i: int| Square::Free);
    let one = empty.update(42, Square::Held(Player::A));
    let two = one.update(6, Square::Held(Player::A));
    let three = two.update(0, Square::Held(Player::B));
    lemma_tally_empty(49);
    lemma_tally_update(empty, 42, Square::Held(Player::A));
    lemma_tally_update(one, 6, Square::Held(Player::A));
    lemma_tally_update(two, 0, Square::Held(Player::B));
    lemma_tally_update(three, 48, Square::Held(Player::B));
    assert(corners() =~= three.update(48, Square::Held(Player::B)));
}

/// In an open game a stone can be copied to each free square next to it, and then there is no
/// passing.
pub proof fn stones_are_copied_to_neighbours(
    squares: Seq<Square>,
    status: AtaxxStatus,
    from: Cell,
    to: Cell,
)
    requires
        status.outcome is None,
        from.x < 7 && from.y < 7,
        to.x < 7 && to.y < 7,
        squares[7 * from.y + from.x] == Square::Held(status.next),
        squares[7 * to.y + to.x] == Square::Free,
        -1 <= to.x - from.x <= 1,
        -1 <= to.y - from.y <= 1,
    ensures
        AtaxxGame::choices((squares, status)).contains(AtaxxMove::Copy { to }),
        !AtaxxGame::choices((squares, status)).contains(AtaxxMove::Pass),
{
    assert(from != to);
    assert(within_reach(squares, status.next, from, to));
    let m = AtaxxMove::Copy { to };
    assert(within_reach(squares, status.next, from, m->Copy_to));
    lists_hold_the_legal_moves(squares, status.next, m);
    lists_hold_the_legal_moves(squares, status.next, AtaxxMove::Pass);
}

/// Where a stone can be copied to a square, the game is open, the square is free, and a stone
/// of the player to move lies next to it.
pub proof fn copies_start_next_to_stones(
    squares: Seq<Square>,
    status: AtaxxStatus,
    to: Cell,
) -> (from: Cell)
    requires
        AtaxxGame::choices((squares, status)).contains(AtaxxMove::Copy { to }),
    ensures
        status.outcome is None,
        from.x < 7 && from.y < 7,
        to.x < 7 && to.y < 7,
        squares[7 * from.y + from.x] == Square::Held(status.next),
        squares[7 * to.y + to.x] == Square::Free,
        -1 <= to.x - from.x <= 1,
        -1 <= to.y - from.y <= 1,
{
    lists_hold_the_legal_moves(squares, status.next, AtaxxMove::Copy { to });
    choose|from: Cell| #[trigger]
        within_reach(squares, status.next, from, to) && apart(from, to) == 1
}

/// A stone of the player to move can jump, in an open game, to the free squares that are two
/// rows or two columns away from it, and no further.
pub proof fn stones_jump_two_squares(
    squares: Seq<Square>,
    status: AtaxxStatus,
    from: Cell,
    to: Cell,
)
    ensures
        AtaxxGame::choices((squares, status)).contains(AtaxxMove::Jump { from, to }) <==> {
            &&& status.outcome is None
            &&& from.x < 7 && from.y < 7
            &&& to.x < 7 && to.y < 7
            &&& squares[7 * from.y + from.x] == Square::Held(status.next)
            &&& squares[7 * to.y + to.x] == Square::Free
            &&& -2 <= to.x - from.x <= 2
            &&& -2 <= to.y - from.y <= 2
            &&& to.x - from.x == 2 || from.x - to.x == 2 || to.y - from.y == 2 || from.y - to.y == 2
        },
{
    lists_hold_the_legal_moves(squares, status.next, AtaxxMove::Jump { from, to });
}

/// Who passes has no stone that could move.
pub proof fn passes_are_forced(squares: Seq<Square>, status: AtaxxStatus, from: Cell, to: Cell)
    requires
        AtaxxGame::choices((squares, status)).contains(AtaxxMove::Pass),
        from.x < 7 && from.y < 7,
        to.x < 7 && to.y < 7,
        -2 <= to.x - from.x <= 2,
        -2 <= to.y - from.y <= 2,
    ensures
        status.outcome is None,
        AtaxxGame::choices((squares, status)).len() == 1,
        squares[7 * from.y + from.x] != Square::Held(status.next) || squares[7 * to.y + to.x]
            != Square::Free,
{
    lists_hold_the_legal_moves(squares, status.next, AtaxxMove::Pass);
    assert(!within_reach(squares, status.next, from, to));
}

/// Who cannot pass in an open game has a stone that can move.
pub proof fn movers_have_somewhere_to_go(squares: Seq<Square>, status: AtaxxStatus) -> (way: (
    Cell,
    Cell,
))
    requires
        status.outcome is None,
        !AtaxxGame::choices((squares, status)).contains(AtaxxMove::Pass),
    ensures
        ({
            let (from, to) = way;
            &&& from.x < 7 && from.y < 7
            &&& to.x < 7 && to.y < 7
            &&& squares[7 * from.y + from.x] == Square::Held(status.next)
            &&& squares[7 * to.y + to.x] == Square::Free
            &&& -2 <= to.x - from.x <= 2
            &&& -2 <= to.y - from.y <= 2
        }),
{
    lists_hold_the_legal_moves(squares, status.next, AtaxxMove::Pass);
    choose|from: Cell, to: Cell| within_reach(squares, status.next, from, to)
}

/// Copies are considered before jumps, the copies row by row, and the jumps by where they
/// lead to and then by where they start from.
pub proof fn moves_come_in_order(squares: Seq<Square>, status: AtaxxStatus, i: int, j: int)
    requires
        0 <= i < j < AtaxxGame::choices((squares, status)).len(),
    ensures
        match (AtaxxGame::choices((squares, status))[i], AtaxxGame::choices((squares, status))[j]) {
            (AtaxxMove::Copy { to: a }, AtaxxMove::Copy { to: b }) => 7 * a.y + a.x < 7 * b.y + b.x,
            (AtaxxMove::Copy { .. }, AtaxxMove::Jump { .. }) => true,
            (
                AtaxxMove::Jump { from: a, to: c },
                AtaxxMove::Jump { from: b, to: d },
            ) => 7 * c.y + c.x < 7 * d.y + d.x || (c == d && 7 * a.y + a.x < 7 * b.y + b.x),
            _ => false,
        },
{
    let mover = status.next;
    let is_copy = |n: int| is_legal(squares, mover, AtaxxMove::Copy { to: numbered(n) });
    let is_jump = |k: int| is_legal(squares, mover, numbered_jump(k));
    let copies = ascending(49, is_copy);
    let jumps = ascending(2401, is_jump);
    lemma_ascending(49, is_copy);
    lemma_ascending(2401, is_jump);
    if j < copies.len() {
        assert(0 <= copies[i] < copies[j] < 49);
    } else if i >= copies.len() {
        let a = jumps[i - copies.len()];
        let b = jumps[j - copies.len()];
        assert(0 <= a < b < 2401);
        assert(a / 49 <= b / 49);
        assert(a / 49 == b / 49 ==> a % 49 < b % 49);
        assert(numbered(a / 49).x + 7 * numbered(a / 49).y == a / 49);
        assert(numbered(b / 49).x + 7 * numbered(b / 49).y == b / 49);
        assert(numbered(a % 49).x + 7 * numbered(a % 49).y == a % 49);
        assert(numbered(b % 49).x + 7 * numbered(b % 49).y == b % 49);
    }
}

/// A copy puts a stone on its square and takes over the rival's stones next to it; all other
/// squares stay as they are. The rival is next, and the clock starts again.
pub proof fn copies_take_over(squares: Seq<Square>, status: AtaxxStatus, to: Cell, cell: Cell)
    requires
        squares.len() == 49,
        to.x < 7 && to.y < 7,
        cell.x < 7 && cell.y < 7,
    ensures
        ({
            let (next_squares, next_status) = AtaxxGame::after(
                (squares, status),
                AtaxxMove::Copy { to },
            );
            let (before, behind) = (
                squares[7 * cell.y + cell.x],
                next_squares[7 * cell.y + cell.x],
            );
            let close = -1 <= cell.x - to.x <= 1 && -1 <= cell.y - to.y <= 1;
            &&& next_squares.len() == 49
            &&& cell == to ==> behind == Square::Held(status.next)
            &&& cell != to && close && before == Square::Held(status.next.rival()) ==> behind
                == Square::Held(status.next)
            &&& cell != to && !(close && before == Square::Held(status.next.rival())) ==> behind
                == before
            &&& next_status.next == status.next.rival()
            &&& next_status.quiet == 0
        }),
{
    assert(numbered(number(cell)) == cell);
}

/// A jump frees the square that it starts from, puts the stone on the other one and takes
/// over the rival's stones next to that; all other squares stay as they are. The rival is
/// next, and the clock goes on.
pub proof fn jumps_take_over(
    squares: Seq<Square>,
    status: AtaxxStatus,
    from: Cell,
    to: Cell,
    cell: Cell,
)
    requires
        squares.len() == 49,
        from.x < 7 && from.y < 7,
        to.x < 7 && to.y < 7,
        cell.x < 7 && cell.y < 7,
        status.quiet < 255,
    ensures
        ({
            let (next_squares, next_status) = AtaxxGame::after(
                (squares, status),
                AtaxxMove::Jump { from, to },
            );
            let (before, behind) = (
                squares[7 * cell.y + cell.x],
                next_squares[7 * cell.y + cell.x],
            );
            let close = -1 <= cell.x - to.x <= 1 && -1 <= cell.y - to.y <= 1;
            &&& next_squares.len() == 49
            &&& cell == to ==> behind == Square::Held(status.next)
            &&& cell != to && cell == from ==> behind == Square::Free
            &&& cell != to && cell != from && close && before == Square::Held(status.next.rival())
                ==> behind == Square::Held(status.next)
            &&& cell != to && cell != from && !(close && before == Square::Held(
                status.next.rival(),
            )) ==> behind == before
            &&& next_status.next == status.next.rival()
            &&& next_status.quiet == status.quiet + 1
        }),
{
    assert(numbered(number(cell)) == cell);
}

/// A pass changes nothing but whose turn it is, and the clock goes on.
pub proof fn passes_pass_the_turn(squares: Seq<Square>, status: AtaxxStatus)
    requires
        status.quiet < 255,
    ensures
        ({
            let (next_squares, next_status) = AtaxxGame::after((squares, status), AtaxxMove::Pass);
            &&& next_squares == squares
            &&& next_status.next == status.next.rival()
            &&& next_status.quiet == status.quiet + 1
            &&& next_status.outcome == status.outcome
        }),
{
}

/// What lies on the squares is counted square by square.
pub proof fn squares_are_counted(squares: Seq<Square>, more: Square, kind: Square)
    ensures
        tally(Seq::<Square>::empty(), kind) == 0,
        more == kind ==> tally(squares.push(more), kind) == tally(squares, kind) + 1,
        more != kind ==> tally(squares.push(more), kind) == tally(squares, kind),
{
    assert(squares.push(more).drop_last() =~= squares);
}

/// A move that places a stone ends the game in a draw where a hundred moves have gone by
/// without a copy, and against a player who has no stone left. Otherwise the game goes on
/// while any stone can move, and goes to who has more stones where none can.
pub proof fn games_end_as_the_board_shows(
    squares: Seq<Square>,
    status: AtaxxStatus,
    m: AtaxxMove,
    p: Player,
    from: Cell,
    to: Cell,
)
    requires
        m != AtaxxMove::Pass,
        status.quiet < 255,
        from.x < 7 && from.y < 7,
        to.x < 7 && to.y < 7,
        -2 <= to.x - from.x <= 2,
        -2 <= to.y - from.y <= 2,
    ensures
        ({
            let (board, status) = AtaxxGame::after((squares, status), m);
            let own = tally(board, Square::Held(p));
            let theirs = tally(board, Square::Held(p.rival()));
            &&& status.quiet >= 100 ==> status.outcome == Some(Outcome::Draw)
            &&& own == 0 && theirs == 0 ==> status.outcome == Some(Outcome::Draw)
            &&& status.quiet < 100 && own > 0 && theirs == 0 ==> status.outcome == Some(
                Outcome::WonBy(p),
            )
            &&& status.quiet < 100 && own > 0 && theirs > 0 ==> {
                &&& board[7 * from.y + from.x] == Square::Held(p) && board[7 * to.y + to.x]
                    == Square::Free ==> status.outcome is None
                &&& status.outcome is Some && own > theirs ==> status.outcome == Some(
                    Outcome::WonBy(p),
                )
                &&& status.outcome is Some && own == theirs ==> status.outcome == Some(
                    Outcome::Draw,
                )
            }
        }),
{
    let board = AtaxxGame::after((squares, status), m).0;
    if board[7 * from.y + from.x] == Square::Held(p) && board[7 * to.y + to.x] == Square::Free {
        assert(within_reach(board, p, from, to));
    }
}

/// A game that a move with few quiet moves before it leaves open, with stones of both
/// players on the board, has a stone that can move.
pub proof fn open_boards_have_a_way(
    squares: Seq<Square>,
    status: AtaxxStatus,
    m: AtaxxMove,
) -> (way: (Player, Cell, Cell))
    requires
        m != AtaxxMove::Pass,
        AtaxxGame::after((squares, status), m).1.outcome is None,
    ensures
        ({
            let board = AtaxxGame::after((squares, status), m).0;
            let (p, from, to) = way;
            &&& from.x < 7 && from.y < 7
            &&& to.x < 7 && to.y < 7
            &&& board[7 * from.y + from.x] == Square::Held(p)
            &&& board[7 * to.y + to.x] == Square::Free
            &&& -2 <= to.x - from.x <= 2
            &&& -2 <= to.y - from.y <= 2
        }),
{
    let board = AtaxxGame::after((squares, status), m).0;
    let p = if can_move(board, Player::A) {
        Player::A
    } else {
        Player::B
    };
    assert(can_move(board, p));
    let (from, to) = choose|from: Cell, to: Cell| within_reach(board, p, from, to);
    (p, from, to)
}

/// A copy is wanted as much as the output of its square says, and a jump as much as that of
/// its square in the second half. A pass is the last thing wanted.
pub proof fn moves_have_their_outputs(reply: Seq<u64>, from: Cell, to: Cell)
    ensures
        AtaxxGame::weight(reply, AtaxxMove::Copy { to }) == reply[7 * to.y + to.x],
        AtaxxGame::weight(reply, AtaxxMove::Jump { from, to }) == reply[49 + 7 * to.y + to.x],
        AtaxxGame::weight(reply, AtaxxMove::Pass) == 0xFFF0_0000_0000_0000u64,
{
}

/// The move that a network plays is a legal one, and its own output is not less than that of
/// any other legal move; of equal ones it is the first.
pub proof fn networks_play_what_they_want_most(
    squares: Seq<Square>,
    status: AtaxxStatus,
    reply: Seq<u64>,
    k: int,
    j: int,
)
    requires
        is_first_best(weights::<AtaxxGame>(reply, AtaxxGame::choices((squares, status))), k),
        0 <= j < AtaxxGame::choices((squares, status)).len(),
        forall|i: int| 0 <= i < 98 ==> rank(#[trigger] reply[i]) is Some,
    ensures
        0 <= k < AtaxxGame::choices((squares, status)).len(),
        ({
            let want = |m: AtaxxMove|
                match m {
                    AtaxxMove::Pass => 0xFFF0_0000_0000_0000u64,
                    AtaxxMove::Copy { to } => reply[7 * to.y + to.x],
                    AtaxxMove::Jump { to, .. } => reply[49 + 7 * to.y + to.x],
                };
            let (played, other) = (
                AtaxxGame::choices((squares, status))[k],
                AtaxxGame::choices((squares, status))[j],
            );
            &&& !above(want(other), want(played))
            &&& j < k ==> above(want(played), want(other))
        }),
{
    let moves = AtaxxGame::choices((squares, status));
    let wishes = weights::<AtaxxGame>(reply, moves);
    lemma_wishes_count(squares, status, reply, 0);
    lemma_wishes_count(squares, status, reply, j);
    the_greatest_wish_decides(wishes, k, j);
}

/// The wish for a legal move is a number where the reply holds numbers.
proof fn lemma_wishes_count(squares: Seq<Square>, status: AtaxxStatus, reply: Seq<u64>, i: int)
    requires
        0 <= i < AtaxxGame::choices((squares, status)).len(),
        forall|i: int| 0 <= i < 98 ==> rank(#[trigger] reply[i]) is Some,
    ensures
        rank(wish(reply, AtaxxGame::choices((squares, status))[i])) is Some,
{
    let m = AtaxxGame::choices((squares, status))[i];
    assert(AtaxxGame::choices((squares, status)).contains(m));
    lists_hold_the_legal_moves(squares, status.next, m);
    match m {
        AtaxxMove::Pass => {},
        AtaxxMove::Copy { to } => {
            let from = copies_start_next_to_stones(squares, status, to);
            assert(rank(reply[number(to)]) is Some);
        },
        AtaxxMove::Jump { from, to } => {
            assert(rank(reply[49 + number(to)]) is Some);
        },
    }
}

/// Each player is shown its own stones first and those of the other after them, so that the
/// two see each other's halves swapped.
pub proof fn players_see_their_side(
    squares: Seq<Square>,
    status: AtaxxStatus,
    viewpoint: Player,
    i: int,
)
    requires
        squares.len() == 49,
        0 <= i < 49,
    ensures
        ({
            let shown = AtaxxGame::picture((squares, status), viewpoint);
            let opposite = AtaxxGame::picture((squares, status), viewpoint.rival());
            &&& shown.len() == 98
            &&& shown[i] == (Ratio {
                num: if squares[i] == Square::Held(viewpoint) {
                    1
                } else {
                    0
                },
                den: 1,
            })
            &&& shown[49 + i] == (Ratio {
                num: if squares[i] == Square::Held(viewpoint.rival()) {
                    1
                } else {
                    0
                },
                den: 1,
            })
            &&& opposite[i] == shown[49 + i]
            &&& opposite[49 + i] == shown[i]
        }),
{
    planes_show_both_sides(holders(squares), viewpoint, i);
}

/// A stone is drawn where one lies, and none where a square is free or missing.
pub proof fn stones_are_held(squares: Seq<Square>, p: Player, i: int)
    requires
        0 <= i < squares.len(),
    ensures
        holders(squares).len() == squares.len(),
        holders(squares)[i] == Some(p) <==> squares[i] == Square::Held(p),
        holders(squares)[i] is None <==> squares[i] == Square::Free || squares[i] == Square::Gap,
{
}

/// The winner scores a point, the loser nothing, and a draw is worth half a point.
pub proof fn winners_score(position: (Seq<Square>, AtaxxStatus), p: Player)
    ensures
        AtaxxGame::outcome_of(position) == position.1.outcome,
        AtaxxGame::to_move(position) == position.1.next,
        position.1.outcome == Some(Outcome::WonBy(p)) ==> AtaxxGame::points(position, p) == (
        Ratio { num: 1, den: 1 }) && AtaxxGame::points(position, p.rival()) == (Ratio {
            num: 0,
            den: 1,
        }),
        position.1.outcome == Some(Outcome::Draw) ==> AtaxxGame::points(position, p) == (Ratio {
            num: 1,
            den: 2,
        }),
        position.1.outcome is None ==> AtaxxGame::points(position, p) == (Ratio {
            num: 0,
            den: 1,
        }),
{
}

/// Games start with two opposite corners for each player and `A` to move, and an evaluation
/// takes two of them. Networks have ninety-eight inputs and forty-nine outputs, and are not
/// asked where there is only one move.
pub proof fn games_are_set_up(i: int)
    requires
        0 <= i < 49,
    ensures
        ({
            let (squares, status) = AtaxxGame::opening();
            &&& squares.len() == 49
            &&& squares[i] == Square::Held(Player::A) <==> i == 6 || i == 42
            &&& squares[i] == Square::Held(Player::B) <==> i == 0 || i == 48
            &&& squares[i] != Square::Gap
            &&& status.next == Player::A
            &&& status.quiet == 0
            &&& status.outcome is None
        }),
        AtaxxGame::games() == 2,
        AtaxxGame::dims() == (98usize, 49usize),
        AtaxxGame::reply_size() == 98,
        AtaxxGame::move_limit() is None,
        AtaxxGame::plays_lone_choice(),
{
}

} // verus!
