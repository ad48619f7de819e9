//! Tic-tac-toe.
use super::{
    ascending, board_text, by_parity, encode_planes, is_first_best, lemma_ascending,
    lemma_stones_bound, lemma_stones_update, outcome_points, planes_show_both_sides, render_board,
    score_outcome, stones, the_greatest_wish_decides, two_planes, weights, Cell, CoEvolGame,
    Outcome, Player,
};
use crate::bits::{above, rank};
use crate::ratio::Ratio;
use board_game::board::Board;
use board_game::games::ttt::TTTBoard;
use board_game::util::coord::Coord3;
use vstd::prelude::*;

verus! {

/// The board of the `board-game` crate.
#[verifier::external_type_specification]
#[verifier::external_body]
pub struct ExTTTBoard(board_game::games::ttt::TTTBoard);

/// The nine squares of `board`, row by row, each with the player whose stone lies
/// on it.
pub uninterp spec fn ttt_tiles(board: TTTBoard) -> Seq<Option<Player>>;

/// Whether `player` holds the squares `a`, `b` and `c`.
pub open spec fn holds(tiles: Seq<Option<Player>>, player: Player, a: int, b: int, c: int) -> bool {
    tiles[a] == Some(player) && tiles[b] == Some(player) && tiles[c] == Some(player)
}

/// Whether `player` holds a row, a column or a diagonal.
pub open spec fn has_line(tiles: Seq<Option<Player>>, player: Player) -> bool {
    ||| exists|i: int| 0 <= i < 3 && #[trigger] holds(tiles, player, 3 * i, 3 * i + 1, 3 * i + 2)
    ||| exists|i: int| 0 <= i < 3 && #[trigger] holds(tiles, player, i, i + 3, i + 6)
    ||| holds(tiles, player, 0, 4, 8)
    ||| holds(tiles, player, 2, 4, 6)
}

/// How a game that has reached `tiles` ended, if it has.
pub open spec fn ttt_outcome(tiles: Seq<Option<Player>>) -> Option<Outcome> {
    if has_line(tiles, Player::A) {
        Some(Outcome::WonBy(Player::A))
    } else if has_line(tiles, Player::B) {
        Some(Outcome::WonBy(Player::B))
    } else if forall|i: int| 0 <= i < 9 ==> #[trigger] tiles[i] is Some {
        Some(Outcome::Draw)
    } else {
        None
    }
}

/// The square with the number `i`.
pub open spec fn cell_at(i: int) -> Cell {
    Cell { x: (i % 3) as u8, y: (i / 3) as u8 }
}

/// The number of the square `cell`.
pub open spec fn cell_number(cell: Cell) -> int {
    cell.x + 3 * cell.y
}

/// The free squares of an unfinished game, in ascending order.
pub open spec fn ttt_choices(tiles: Seq<Option<Player>>) -> Seq<Cell> {
    if ttt_outcome(tiles) is Some {
        Seq::empty()
    } else {
        ascending(9, |i: int| tiles[i] is None).map_values(|i: int| cell_at(i))
    }
}

/// Calls `TTTBoard::default`, which sets up an empty board.
#[verifier::external_body]
fn empty_board() -> (board: TTTBoard)
    ensures
        ttt_tiles(board) == Seq::new(9, |i: int| None::<Player>),
{
    TTTBoard::default()
}

/// Calls `TTTBoard::tile`, which tells whose stone lies on a square.
#[verifier::external_body]
fn tile(board: &TTTBoard, cell: Cell) -> (t: Option<Player>)
    requires
        cell.x < 3,
        cell.y < 3,
    ensures
        t == ttt_tiles(*board)[cell_number(cell)],
{
    match board.tile(Coord3::from_xy(cell.x, cell.y)) {
        Some(board_game::board::Player::A) => Some(Player::A),
        Some(board_game::board::Player::B) => Some(Player::B),
        None => None,
    }
}

/// Calls `TTTBoard::next_player`. The players alternate and each move places one
/// stone, so the number of stones tells whose turn it is.
#[verifier::external_body]
fn player_to_move(board: &TTTBoard) -> (p: Player)
    ensures
        p == by_parity(ttt_tiles(*board)),
{
    match board.next_player() {
        board_game::board::Player::A => Player::A,
        board_game::board::Player::B => Player::B,
    }
}

/// Calls `TTTBoard::outcome`. A board takes no move after the one that completes a
/// line or fills it, so its stones tell the outcome.
#[verifier::external_body]
fn board_outcome(board: &TTTBoard) -> (o: Option<Outcome>)
    ensures
        o == ttt_outcome(ttt_tiles(*board)),
{
    match board.outcome() {
        Some(board_game::board::Outcome::WonBy(board_game::board::Player::A)) => Some(
            Outcome::WonBy(Player::A),
        ),
        Some(board_game::board::Outcome::WonBy(board_game::board::Player::B)) => Some(
            Outcome::WonBy(Player::B),
        ),
        Some(board_game::board::Outcome::Draw) => Some(Outcome::Draw),
        None => None,
    }
}

/// Calls `TTTBoard::is_available_move`, which reports an error on a finished board
/// and otherwise whether the square is free.
#[verifier::external_body]
fn is_available(board: &TTTBoard, cell: Cell) -> (a: Option<bool>)
    requires
        cell.x < 3,
        cell.y < 3,
    ensures
        ttt_outcome(ttt_tiles(*board)) is Some ==> a is None,
        ttt_outcome(ttt_tiles(*board)) is None ==> a == Some(
            ttt_tiles(*board)[cell_number(cell)] is None,
        ),
{
    board.is_available_move(Coord3::from_xy(cell.x, cell.y)).ok()
}

/// Calls `TTTBoard::play`, which places a stone of the player to move where the
/// move is available and reports an error, changing nothing, where it is not.
#[verifier::external_body]
fn place(board: &mut TTTBoard, cell: Cell) -> (placed: bool)
    requires
        cell.x < 3,
        cell.y < 3,
    ensures
        placed == (ttt_outcome(ttt_tiles(*old(board))) is None && ttt_tiles(
            *old(board),
        )[cell_number(cell)] is None),
        placed ==> ttt_tiles(*final(board)) == ttt_tiles(*old(board)).update(
            cell_number(cell),
            Some(by_parity(ttt_tiles(*old(board)))),
        ),
        !placed ==> ttt_tiles(*final(board)) == ttt_tiles(*old(board)),
{
    board.play(Coord3::from_xy(cell.x, cell.y)).is_ok()
}

/// Returns the square with the number `i`.
pub fn coord(i: usize) -> (cell: Cell)
    requires
        i < 9,
    ensures
        cell == cell_at(i as int),
        cell_number(cell) == i,
        cell.x < 3,
        cell.y < 3,
{
    Cell { x: (i % 3) as u8, y: (i / 3) as u8 }
}

/// A square is on the list of choices exactly where it is free and the game goes on.
proof fn lemma_choices(tiles: Seq<Option<Player>>, m: Cell)
    requires
        ttt_choices(tiles).contains(m),
    ensures
        ttt_outcome(tiles) is None,
        m.x < 3,
        m.y < 3,
        0 <= cell_number(m) < 9,
        tiles[cell_number(m)] is None,
{
    let keep = |i: int| tiles[i] is None;
    let numbers = ascending(9, keep);
    lemma_ascending(9, keep);
    let k = choose|k: int| 0 <= k < ttt_choices(tiles).len() && ttt_choices(tiles)[k] == m;
    assert(m == cell_at(numbers[k]));
    assert(0 <= numbers[k] < 9);
}

/// Tic-tac-toe as a co-evolutionary game.
pub struct TttGame {
    board: TTTBoard,
}

impl TttGame {
    /// Reads off the nine squares.
    fn tiles(&self) -> (tiles: Vec<Option<Player>>)
        requires
            self.wf(),
        ensures
            tiles@ == self.position(),
    {
        let mut tiles: Vec<Option<Player>> = Vec::new();
        for i in 0..9usize
            invariant
                self.wf(),
                tiles@ == self.position().take(i as int),
        {
            tiles.push(tile(&self.board, coord(i)));
            assert(self.position().take(i + 1) =~= self.position().take(i as int).push(
                self.position()[i as int],
            ));
        }
        assert(self.position().take(9) =~= self.position());
        tiles
    }
}

impl CoEvolGame for TttGame {
    type Move = Cell;

    type Position = Seq<Option<Player>>;

    closed spec fn position(&self) -> Seq<Option<Player>> {
        ttt_tiles(self.board)
    }

    closed spec fn wf(&self) -> bool {
        ttt_tiles(self.board).len() == 9
    }

    open spec fn opening() -> Seq<Option<Player>> {
        Seq::new(9, |i: int| None::<Player>)
    }

    open spec fn to_move(p: Seq<Option<Player>>) -> Player {
        by_parity(p)
    }

    open spec fn outcome_of(p: Seq<Option<Player>>) -> Option<Outcome> {
        ttt_outcome(p)
    }

    open spec fn choices(p: Seq<Option<Player>>) -> Seq<Cell> {
        ttt_choices(p)
    }

    open spec fn after(p: Seq<Option<Player>>, m: Cell) -> Seq<Option<Player>> {
        p.update(cell_number(m), Some(by_parity(p)))
    }

    open spec fn picture(p: Seq<Option<Player>>, viewpoint: Player) -> Seq<Ratio> {
        two_planes(p, viewpoint)
    }

    open spec fn weight(reply: Seq<u64>, m: Cell) -> u64 {
        reply[cell_number(m)]
    }

    open spec fn points(p: Seq<Option<Player>>, learner: Player) -> Ratio {
        outcome_points(ttt_outcome(p), learner)
    }

    open spec fn games() -> usize {
        8
    }

    open spec fn dims() -> (usize, usize) {
        (18, 9)
    }

    open spec fn reply_size() -> usize {
        9
    }

    open spec fn plays_lone_choice() -> bool {
        false
    }

    open spec fn move_limit() -> Option<usize> {
        None
    }

    fn games_per_eval() -> (n: usize) {
        8
    }

    fn io() -> (d: (usize, usize)) {
        (18, 9)
    }

    fn ply_limit() -> (limit: Option<usize>) {
        None
    }

    fn start() -> (game: Self) {
        TttGame { board: empty_board() }
    }

    fn next_player(&self) -> (p: Player) {
        player_to_move(&self.board)
    }

    fn outcome(&self) -> (o: Option<Outcome>) {
        board_outcome(&self.board)
    }

    fn legal_moves(&self) -> (moves: Vec<Cell>) {
        let mut moves: Vec<Cell> = Vec::new();
        if self.outcome().is_some() {
            return moves;
        }
        let ghost keep = |i: int| self.position()[i] is None;
        for i in 0..9usize
            invariant
                self.wf(),
                ttt_outcome(self.position()) is None,
                keep == (|i: int| self.position()[i] is None),
                moves@ == ascending(i as nat, keep).map_values(|i: int| cell_at(i)),
        {
            let cell = coord(i);
            if is_available(&self.board, cell).unwrap_or(false) {
                moves.push(cell);
            }
            assert(moves@ =~= ascending((i + 1) as nat, keep).map_values(|i: int| cell_at(i)));
        }
        moves
    }

    fn encode_board(&self, viewpoint: Player) -> (input: Vec<Ratio>) {
        encode_planes(self.tiles().as_slice(), viewpoint)
    }

    fn weigh(&self, reply: &Vec<u64>, m: Cell) -> (w: u64) {
        proof {
            lemma_choices(self.position(), m);
        }
        reply[(m.x + 3 * m.y) as usize]
    }

    fn play(&mut self, m: Cell) {
        proof {
            lemma_choices(self.position(), m);
            lemma_stones_update(self.position(), cell_number(m), by_parity(self.position()));
        }
        let placed = place(&mut self.board, m);
        assert(placed);
    }

    fn score(&self, learner: Player) -> (points: Ratio) {
        score_outcome(self.outcome(), learner)
    }

    fn lone_choice() -> (b: bool) {
        false
    }
}

/// Draws the board of `game`.
pub fn render_ttt(game: &TttGame) -> (out: String)
    requires
        game.wf(),
    ensures
        out@ == board_text(game.position(), 3),
{
    render_board(game.tiles().as_slice(), 3)
}

/// A game in order has nine squares.
pub proof fn boards_have_nine_squares(game: TttGame)
    requires
        game.wf(),
    ensures
        game.position().len() == 9,
{
}

/// Every move fills a free square for good, so that no game takes more than nine moves.
pub proof fn moves_fill_squares(tiles: Seq<Option<Player>>, m: Cell)
    requires
        tiles.len() == 9,
        TttGame::choices(tiles).contains(m),
    ensures
        stones(TttGame::after(tiles, m)) == stones(tiles) + 1,
        stones(TttGame::after(tiles, m)) <= 9,
        forall|i: int|
            0 <= i < 9 && tiles[i] is Some ==> #[trigger] TttGame::after(tiles, m)[i] == tiles[i],
{
    lemma_choices(tiles, m);
    lemma_stones_update(tiles, cell_number(m), by_parity(tiles));
}

/// There is a move to make exactly while the game goes on.
pub proof fn open_games_have_moves(tiles: Seq<Option<Player>>)
    requires
        tiles.len() == 9,
    ensures
        TttGame::choices(tiles).len() > 0 <==> TttGame::outcome_of(tiles) is None,
{
    if ttt_outcome(tiles) is None {
        let i = choose|i: int| 0 <= i < 9 && tiles[i] is None;
        let keep = |i: int| tiles[i] is None;
        lemma_ascending(9, keep);
        assert(ascending(9, keep).contains(i));
    }
}

/// A player has won exactly where it holds one of the eight lines, and a game without a
/// winner is a draw exactly where the board is full.
pub proof fn lines_win(tiles: Seq<Option<Player>>)
    requires
        tiles.len() == 9,
    ensures
        ({
            let line = |p: Player, a: int, b: int, c: int|
                tiles[a] == Some(p) && tiles[b] == Some(p) && tiles[c] == Some(p);
            let wins = |p: Player|
                line(p, 0, 1, 2) || line(p, 3, 4, 5) || line(p, 6, 7, 8) || line(p, 0, 3, 6)
                    || line(p, 1, 4, 7) || line(p, 2, 5, 8) || line(p, 0, 4, 8) || line(p, 2, 4, 6);
            let outcome = TttGame::outcome_of(tiles);
            &&& wins(Player::A) ==> outcome == Some(Outcome::WonBy(Player::A))
            &&& !wins(Player::A) && wins(Player::B) ==> outcome == Some(
                Outcome::WonBy(Player::B),
            )
            &&& !wins(Player::A) && !wins(Player::B) ==> outcome == (if stones(tiles) == 9 {
                Some(Outcome::Draw)
            } else {
                None
            })
        }),
{
    lemma_lines(tiles, Player::A);
    lemma_lines(tiles, Player::B);
    lemma_full(tiles);
}

/// The eight lines, one by one.
proof fn lemma_lines(tiles: Seq<Option<Player>>, p: Player)
    ensures
        has_line(tiles, p) <==> holds(tiles, p, 0, 1, 2) || holds(tiles, p, 3, 4, 5) || holds(
            tiles,
            p,
            6,
            7,
            8,
        ) || holds(tiles, p, 0, 3, 6) || holds(tiles, p, 1, 4, 7) || holds(tiles, p, 2, 5, 8)
            || holds(tiles, p, 0, 4, 8) || holds(tiles, p, 2, 4, 6),
{
    if has_line(tiles, p) {
        if exists|i: int| 0 <= i < 3 && #[trigger] holds(tiles, p, 3 * i, 3 * i + 1, 3 * i + 2) {
            let i = choose|i: int|
                0 <= i < 3 && #[trigger] holds(tiles, p, 3 * i, 3 * i + 1, 3 * i + 2);
            assert(i == 0 || i == 1 || i == 2);
        } else if exists|i: int| 0 <= i < 3 && #[trigger] holds(tiles, p, i, i + 3, i + 6) {
            let i = choose|i: int| 0 <= i < 3 && #[trigger] holds(tiles, p, i, i + 3, i + 6);
            assert(i == 0 || i == 1 || i == 2);
        }
    }
    let (zero, one, two) = (0int, 1int, 2int);
    assert(holds(tiles, p, 3 * zero, 3 * zero + 1, 3 * zero + 2) == holds(tiles, p, 0, 1, 2));
    assert(holds(tiles, p, 3 * one, 3 * one + 1, 3 * one + 2) == holds(tiles, p, 3, 4, 5));
    assert(holds(tiles, p, 3 * two, 3 * two + 1, 3 * two + 2) == holds(tiles, p, 6, 7, 8));
    assert(holds(tiles, p, zero, zero + 3, zero + 6) == holds(tiles, p, 0, 3, 6));
    assert(holds(tiles, p, one, one + 3, one + 6) == holds(tiles, p, 1, 4, 7));
    assert(holds(tiles, p, two, two + 3, two + 6) == holds(tiles, p, 2, 5, 8));
}

/// A board is full exactly where there are nine stones on it.
proof fn lemma_full(tiles: Seq<Option<Player>>)
    requires
        tiles.len() == 9,
    ensures
        stones(tiles) == 9 <==> forall|i: int| 0 <= i < 9 ==> #[trigger] tiles[i] is Some,
{
    lemma_all_stones(tiles);
}

/// There are as many stones as squares exactly where no square is free.
proof fn lemma_all_stones(tiles: Seq<Option<Player>>)
    ensures
        stones(tiles) == tiles.len() <==> forall|i: int|
            0 <= i < tiles.len() ==> #[trigger] tiles[i] is Some,
    decreases tiles.len(),
{
    lemma_stones_bound(tiles);
    if tiles.len() > 0 {
        let fewer = tiles.drop_last();
        lemma_stones_bound(fewer);
        lemma_all_stones(fewer);
        assert(tiles.last() == tiles[tiles.len() - 1]);
        if forall|i: int| 0 <= i < fewer.len() ==> #[trigger] fewer[i] is Some {
            assert forall|i: int| 0 <= i < tiles.len() - 1 implies #[trigger] tiles[i] is Some by {
                assert(fewer[i] is Some);
            }
        } else {
            let i = choose|i: int| 0 <= i < fewer.len() && !(#[trigger] fewer[i] is Some);
            assert(!(tiles[i] is Some));
        }
    }
}

/// The moves of an open game are its free squares, and those of a finished one none.
pub proof fn free_squares_are_moves(tiles: Seq<Option<Player>>, m: Cell)
    requires
        tiles.len() == 9,
    ensures
        TttGame::choices(tiles).contains(m) <==> TttGame::outcome_of(tiles) is None && m.x < 3
            && m.y < 3 && tiles[3 * m.y + m.x] is None,
{
    let keep = |i: int| tiles[i] is None;
    let numbers = ascending(9, keep);
    lemma_ascending(9, keep);
    if TttGame::choices(tiles).contains(m) {
        lemma_choices(tiles, m);
    } else if TttGame::outcome_of(tiles) is None && m.x < 3 && m.y < 3 && tiles[3 * m.y + m.x]
        is None {
        let i = 3 * m.y + m.x;
        assert(numbers.contains(i));
        let k = choose|k: int| 0 <= k < numbers.len() && numbers[k] == i;
        assert(cell_at(i) == m);
        assert(TttGame::choices(tiles)[k] == m);
    }
}

/// Moves are considered row by row.
pub proof fn moves_come_in_order(tiles: Seq<Option<Player>>, i: int, j: int)
    requires
        0 <= i < j < TttGame::choices(tiles).len(),
    ensures
        ({
            let (a, b) = (TttGame::choices(tiles)[i], TttGame::choices(tiles)[j]);
            3 * a.y + a.x < 3 * b.y + b.x
        }),
{
    let keep = |i: int| tiles[i] is None;
    lemma_ascending(9, keep);
    assert(0 <= ascending(9, keep)[i] < ascending(9, keep)[j] < 9);
}

/// A move places a stone of the player to move, which is `A` on an even number of stones, on
/// its square, and changes nothing else.
pub proof fn moves_place_one_stone(tiles: Seq<Option<Player>>, m: Cell, i: int)
    requires
        tiles.len() == 9,
        m.x < 3,
        m.y < 3,
        0 <= i < 9,
    ensures
        TttGame::after(tiles, m).len() == 9,
        i == 3 * m.y + m.x ==> TttGame::after(tiles, m)[i] == Some(
            if stones(tiles) % 2 == 0 {
                Player::A
            } else {
                Player::B
            },
        ),
        i != 3 * m.y + m.x ==> TttGame::after(tiles, m)[i] == tiles[i],
        TttGame::to_move(tiles) == (if stones(tiles) % 2 == 0 {
            Player::A
        } else {
            Player::B
        }),
{
}

/// The move that a network makes is on a free square, and its own output is not less than
/// that of any other free square; of equal ones it is the first.
pub proof fn networks_play_what_they_want_most(
    tiles: Seq<Option<Player>>,
    reply: Seq<u64>,
    k: int,
    j: int,
)
    requires
        is_first_best(weights::<TttGame>(reply, TttGame::choices(tiles)), k),
        0 <= j < TttGame::choices(tiles).len(),
        forall|m: Cell| #[trigger]
            TttGame::choices(tiles).contains(m) ==> rank(reply[3 * m.y + m.x]) is Some,
    ensures
        0 <= k < TttGame::choices(tiles).len(),
        ({
            let (played, other) = (TttGame::choices(tiles)[k], TttGame::choices(tiles)[j]);
            let (p, q) = (reply[3 * played.y + played.x], reply[3 * other.y + other.x]);
            &&& !above(q, p)
            &&& j < k ==> above(p, q)
        }),
{
    let wishes = weights::<TttGame>(reply, TttGame::choices(tiles));
    assert(TttGame::choices(tiles).contains(TttGame::choices(tiles)[0]));
    assert(TttGame::choices(tiles).contains(TttGame::choices(tiles)[j]));
    the_greatest_wish_decides(wishes, k, j);
}

/// Each player is shown its own stones first and those of the other after them.
pub proof fn players_see_their_side(tiles: Seq<Option<Player>>, viewpoint: Player, i: int)
    requires
        tiles.len() == 9,
        0 <= i < 9,
    ensures
        ({
            let shown = TttGame::picture(tiles, viewpoint);
            &&& shown.len() == 18
            &&& shown[i] == (Ratio {
                num: if tiles[i] == Some(viewpoint) {
                    1
                } else {
                    0
                },
                den: 1,
            })
            &&& shown[9 + i] == (Ratio {
                num: if tiles[i] == Some(viewpoint.rival()) {
                    1
                } else {
                    0
                },
                den: 1,
            })
        }),
{
    planes_show_both_sides(tiles, viewpoint, i);
}

/// The winner scores a point, the loser nothing, and a draw is worth half a point.
pub proof fn winners_score(tiles: Seq<Option<Player>>, p: Player)
    ensures
        TttGame::outcome_of(tiles) == Some(Outcome::WonBy(p)) ==> TttGame::points(tiles, p) == (
        Ratio { num: 1, den: 1 }) && TttGame::points(tiles, p.rival()) == (Ratio {
            num: 0,
            den: 1,
        }),
        TttGame::outcome_of(tiles) == Some(Outcome::Draw) ==> TttGame::points(tiles, p) == (
        Ratio { num: 1, den: 2 }),
        TttGame::outcome_of(tiles) is None ==> TttGame::points(tiles, p) == (Ratio {
            num: 0,
            den: 1,
        }),
{
}

/// Games start on an empty board, and an evaluation takes eight of them; networks have
/// eighteen inputs and nine outputs, and every move is asked for.
pub proof fn games_are_set_up(i: int)
    requires
        0 <= i < 9,
    ensures
        TttGame::opening().len() == 9,
        TttGame::opening()[i] is None,
        TttGame::games() == 8,
        TttGame::dims() == (18usize, 9usize),
        TttGame::reply_size() == 9,
        TttGame::move_limit() is None,
        !TttGame::plays_lone_choice(),
{
}

} // verus!
