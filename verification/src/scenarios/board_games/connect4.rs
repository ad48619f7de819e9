//! Connect four.
use super::{
    ascending, by_parity, encode_planes, is_first_best, lemma_ascending, lemma_stones_bound,
    lemma_stones_update, outcome_points, planes_show_both_sides, score_outcome, stones,
    the_greatest_wish_decides, two_planes, weights, CoEvolGame, Outcome, Player,
};
use crate::bits::{above, rank};
use crate::ratio::Ratio;
use board_game::board::Board;
use board_game::games::connect4::Connect4;
use vstd::prelude::*;

verus! {

/// How many columns the board has.
pub const WIDTH: usize = 7;

/// How many rows the board has.
pub const HEIGHT: usize = 6;

/// How many squares the board has.
pub const CELLS: usize = 42;

/// The board of the `board-game` crate.
#[verifier::external_type_specification]
#[verifier::external_body]
pub struct ExConnect4(board_game::games::connect4::Connect4);

/// The squares of `board`, row by row from the bottom, each with the player whose
/// stone lies on it.
pub uninterp spec fn connect4_tiles(board: Connect4) -> Seq<Option<Player>>;

/// The square in row `row` and column `col`.
pub open spec fn at(tiles: Seq<Option<Player>>, row: int, col: int) -> Option<Player> {
    tiles[row * 7 + col]
}

/// One where a stone lies on the square and zero otherwise.
pub open spec fn taken(tiles: Seq<Option<Player>>, row: int, col: int) -> int {
    if at(tiles, row, col) is Some {
        1
    } else {
        0
    }
}

/// How many stones lie in column `col`.
pub open spec fn column_height(tiles: Seq<Option<Player>>, col: int) -> int {
    taken(tiles, 0, col) + taken(tiles, 1, col) + taken(tiles, 2, col) + taken(tiles, 3, col)
        + taken(tiles, 4, col) + taken(tiles, 5, col)
}

/// Whether every stone lies on another or on the ground.
pub open spec fn rests(tiles: Seq<Option<Player>>) -> bool {
    forall|row: int, col: int|
        #![trigger at(tiles, row, col)]
        0 <= row < 5 && 0 <= col < 7 && at(tiles, row, col) is None ==> at(
            tiles,
            row + 1,
            col,
        ) is None
}

/// `tiles` with a stone of `player` dropped into column `col`.
pub open spec fn dropped(tiles: Seq<Option<Player>>, col: int, player: Player) -> Seq<
    Option<Player>,
> {
    tiles.update(column_height(tiles, col) * 7 + col, Some(player))
}

/// Whether `player` holds the four squares that start at (`row`, `col`) and go on in
/// the direction (`up`, `right`).
pub open spec fn holds_four(
    tiles: Seq<Option<Player>>,
    player: Player,
    row: int,
    col: int,
    up: int,
    right: int,
) -> bool {
    &&& 0 <= row < 6 && 0 <= row + 3 * up < 6
    &&& 0 <= col < 7 && 0 <= col + 3 * right < 7
    &&& forall|k: int|
        0 <= k < 4 ==> #[trigger] at(tiles, row + k * up, col + k * right) == Some(player)
}

/// Whether `player` holds four squares in a row, in a column or on a diagonal.
pub open spec fn has_four(tiles: Seq<Option<Player>>, player: Player) -> bool {
    exists|row: int, col: int|
        {
            ||| #[trigger] holds_four(tiles, player, row, col, 0, 1)
            ||| holds_four(tiles, player, row, col, 1, 0)
            ||| holds_four(tiles, player, row, col, 1, 1)
            ||| holds_four(tiles, player, row, col, 1, -1)
        }
}

/// How a game that has reached `tiles` ended, if it has.
pub open spec fn connect4_outcome(tiles: Seq<Option<Player>>) -> Option<Outcome> {
    if has_four(tiles, Player::A) {
        Some(Outcome::WonBy(Player::A))
    } else if has_four(tiles, Player::B) {
        Some(Outcome::WonBy(Player::B))
    } else if stones(tiles) == 42 {
        Some(Outcome::Draw)
    } else {
        None
    }
}

/// The columns of an unfinished game that are not full, from left to right.
pub open spec fn connect4_choices(tiles: Seq<Option<Player>>) -> Seq<u8> {
    if connect4_outcome(tiles) is Some {
        Seq::empty()
    } else {
        ascending(7, |col: int| at(tiles, 5, col) is None).map_values(|col: int| col as u8)
    }
}

/// Calls `Connect4::default`, which sets up an empty board.
#[verifier::external_body]
fn empty_board() -> (board: Connect4)
    ensures
        connect4_tiles(board) == Seq::new(42, |i: int| None::<Player>),
{
    Connect4::default()
}

/// Calls `Connect4::next_player`. The players alternate and each move drops one
/// stone, so the number of stones tells whose turn it is.
#[verifier::external_body]
fn player_to_move(board: &Connect4) -> (p: Player)
    ensures
        p == by_parity(connect4_tiles(*board)),
{
    match board.next_player() {
        board_game::board::Player::A => Player::A,
        board_game::board::Player::B => Player::B,
    }
}

/// Calls `Connect4::outcome`. A board takes no move after the one that completes
/// four in line or fills it, so its stones tell the outcome.
#[verifier::external_body]
fn board_outcome(board: &Connect4) -> (o: Option<Outcome>)
    ensures
        o == connect4_outcome(connect4_tiles(*board)),
{
    match board.outcome() {
        Some(board_game::board::Outcome::WonBy(board_game::board::Player::A)) => Some(
            Outcome::WonBy(Player::A),
        ),
        Some(board_game::board::Outcome::WonBy(board_game::board::Player::B)) => Some(
            Outcome::WonBy(Player::B),
        ),
        Some(board_game::board::Outcome::Draw) => Some(Outcome::Draw),
        None => None,
    }
}

/// Calls `Connect4::is_available_move`, which reports an error on a finished board
/// and otherwise whether the column exists and its top square is free.
#[verifier::external_body]
fn is_available(board: &Connect4, col: u8) -> (a: Option<bool>)
    ensures
        connect4_outcome(connect4_tiles(*board)) is Some ==> a is None,
        connect4_outcome(connect4_tiles(*board)) is None ==> a == Some(
            col < 7 && at(connect4_tiles(*board), 5, col as int) is None,
        ),
{
    board.is_available_move(col).ok()
}

/// Calls `Connect4::play`, which drops a stone of the player to move where the move
/// is available and reports an error, changing nothing, where it is not.
#[verifier::external_body]
fn drop_stone(board: &mut Connect4, col: u8) -> (played: bool)
    ensures
        played == (connect4_outcome(connect4_tiles(*old(board))) is None && col < 7 && at(
            connect4_tiles(*old(board)),
            5,
            col as int,
        ) is None),
        played ==> connect4_tiles(*final(board)) == dropped(
            connect4_tiles(*old(board)),
            col as int,
            by_parity(connect4_tiles(*old(board))),
        ),
        !played ==> connect4_tiles(*final(board)) == connect4_tiles(*old(board)),
{
    board.play(col).is_ok()
}

/// A copy of the stones on a board, which hands none of them out itself.
#[derive(Clone, Copy, Debug)]
pub struct ShadowBoard {
    /// The squares, row by row from the bottom.
    pub cells: [Option<Player>; 42],
    /// How many stones lie in each column.
    pub heights: [u8; 7],
}

impl Default for ShadowBoard {
    /// The shadow of an empty board.
    fn default() -> (s: Self)
        ensures
            s.cells@ == Seq::new(42, |i: int| None::<Player>),
            s.heights@ == Seq::new(7, |i: int| 0u8),
    {
        let free: Option<Player> = None;
        let mut cells: [Option<Player>; 42] = [free; 42];
        for i in 0..42usize
            invariant
                free is None,
                forall|k: int| 0 <= k < i ==> #[trigger] cells@[k] is None,
        {
            cells[i] = free;
        }
        let s = ShadowBoard { cells, heights: [0u8; 7] };
        assert(s.cells@ =~= Seq::new(42, |i: int| None::<Player>));
        assert(s.heights@ =~= Seq::new(7, |i: int| 0u8));
        s
    }
}

impl ShadowBoard {
    /// Whether this shadow shows the stones `tiles`.
    pub open spec fn mirrors(&self, tiles: Seq<Option<Player>>) -> bool {
        &&& self.cells@ == tiles
        &&& forall|col: int|
            0 <= col < 7 ==> #[trigger] self.heights@[col] == column_height(tiles, col)
    }

    /// Drops a stone of `player` into column `col`.
    pub fn drop(&mut self, col: u8, player: Player)
        requires
            col < WIDTH,
            old(self).heights@[col as int] < HEIGHT,
        ensures
            final(self).cells@ == old(self).cells@.update(
                old(self).heights@[col as int] * 7 + col,
                Some(player),
            ),
            final(self).heights@ == old(self).heights@.update(
                col as int,
                (old(self).heights@[col as int] + 1) as u8,
            ),
    {
        let row: usize = self.heights[col as usize] as usize;
        self.cells[row * WIDTH + col as usize] = Some(player);
        self.heights[col as usize] = self.heights[col as usize] + 1;
    }

    /// Tells whose stone lies in row `row` and column `col`.
    pub fn cell(&self, row: usize, col: usize) -> (t: Option<Player>)
        requires
            row < HEIGHT,
            col < WIDTH,
        ensures
            t == at(self.cells@, row as int, col as int),
    {
        self.cells[row * WIDTH + col]
    }
}

/// Dropping a stone into a column that is not full puts it on a free square, keeps
/// every stone at rest and raises that column alone.
proof fn lemma_dropped(tiles: Seq<Option<Player>>, col: int, player: Player)
    requires
        tiles.len() == 42,
        rests(tiles),
        0 <= col < 7,
        at(tiles, 5, col) is None,
    ensures
        0 <= column_height(tiles, col) < 6,
        at(tiles, column_height(tiles, col), col) is None,
        rests(dropped(tiles, col, player)),
        forall|c: int|
            0 <= c < 7 ==> #[trigger] column_height(dropped(tiles, col, player), c)
                == column_height(tiles, c) + (if c == col {
                1int
            } else {
                0int
            }),
        stones(dropped(tiles, col, player)) == stones(tiles) + 1,
{
    let next = dropped(tiles, col, player);
    let h = column_height(tiles, col);
    assert(at(tiles, 0, col) is None ==> at(tiles, 1, col) is None);
    assert(at(tiles, 1, col) is None ==> at(tiles, 2, col) is None);
    assert(at(tiles, 2, col) is None ==> at(tiles, 3, col) is None);
    assert(at(tiles, 3, col) is None ==> at(tiles, 4, col) is None);
    assert(at(tiles, 4, col) is None ==> at(tiles, 5, col) is None);
    assert(0 <= h < 6);
    assert(at(tiles, h, col) is None);
    assert forall|r: int, c: int| 0 <= r < 6 && 0 <= c < 7 implies #[trigger] at(next, r, c) == (
    if r == h && c == col {
        Some(player)
    } else {
        at(tiles, r, c)
    }) by {
        if r * 7 + c == h * 7 + col {
            assert(r == h && c == col);
        }
    }
    assert forall|r: int, c: int|
        #![trigger at(next, r, c)]
        0 <= r < 5 && 0 <= c < 7 && at(next, r, c) is None implies at(next, r + 1, c) is None by {
        assert(at(tiles, r, c) is None);
        assert(at(next, r + 1, c) == if r + 1 == h && c == col {
            Some(player)
        } else {
            at(tiles, r + 1, c)
        });
    }
    assert(at(tiles, h, col) == tiles[h * 7 + col]);
    lemma_stones_update(tiles, h * 7 + col, player);
}

/// A column is on the list of choices only where it is not full and the game goes on.
proof fn lemma_choices(tiles: Seq<Option<Player>>, col: u8)
    requires
        connect4_choices(tiles).contains(col),
    ensures
        connect4_outcome(tiles) is None,
        col < 7,
        at(tiles, 5, col as int) is None,
{
    let keep = |c: int| at(tiles, 5, c) is None;
    let numbers = ascending(7, keep);
    lemma_ascending(7, keep);
    let k = choose|k: int|
        0 <= k < connect4_choices(tiles).len() && connect4_choices(tiles)[k] == col;
    assert(col == numbers[k] as u8);
    assert(0 <= numbers[k] < 7);
}

/// Connect four as a co-evolutionary game: the board and its shadow.
pub struct Connect4Game {
    board: Connect4,
    shadow: ShadowBoard,
}

impl CoEvolGame for Connect4Game {
    type Move = u8;

    type Position = Seq<Option<Player>>;

    closed spec fn position(&self) -> Seq<Option<Player>> {
        connect4_tiles(self.board)
    }

    closed spec fn wf(&self) -> bool {
        &&& self.position().len() == 42
        &&& rests(self.position())
        &&& self.shadow.mirrors(self.position())
    }

    open spec fn opening() -> Seq<Option<Player>> {
        Seq::new(42, |i: int| None::<Player>)
    }

    open spec fn to_move(p: Seq<Option<Player>>) -> Player {
        by_parity(p)
    }

    open spec fn outcome_of(p: Seq<Option<Player>>) -> Option<Outcome> {
        connect4_outcome(p)
    }

    open spec fn choices(p: Seq<Option<Player>>) -> Seq<u8> {
        connect4_choices(p)
    }

    open spec fn after(p: Seq<Option<Player>>, m: u8) -> Seq<Option<Player>> {
        dropped(p, m as int, by_parity(p))
    }

    open spec fn picture(p: Seq<Option<Player>>, viewpoint: Player) -> Seq<Ratio> {
        two_planes(p, viewpoint)
    }

    open spec fn weight(reply: Seq<u64>, m: u8) -> u64 {
        reply[m as int]
    }

    open spec fn points(p: Seq<Option<Player>>, learner: Player) -> Ratio {
        outcome_points(connect4_outcome(p), learner)
    }

    open spec fn games() -> usize {
        8
    }

    open spec fn dims() -> (usize, usize) {
        (84, 7)
    }

    open spec fn reply_size() -> usize {
        7
    }

    open spec fn plays_lone_choice() -> bool {
        false
    }

    open spec fn move_limit() -> Option<usize> {
        None
    }

    fn games_per_eval() -> (n: usize) {
        8
    }

    fn io() -> (d: (usize, usize)) {
        (2 * CELLS, WIDTH)
    }

    fn ply_limit() -> (limit: Option<usize>) {
        None
    }

    fn start() -> (game: Self) {
        let game = Connect4Game { board: empty_board(), shadow: ShadowBoard::default() };
        assert(forall|row: int, col: int|
            0 <= row < 6 && 0 <= col < 7 ==> #[trigger] at(game.position(), row, col) is None);
        game
    }

    fn next_player(&self) -> (p: Player) {
        player_to_move(&self.board)
    }

    fn outcome(&self) -> (o: Option<Outcome>) {
        board_outcome(&self.board)
    }

    fn legal_moves(&self) -> (moves: Vec<u8>) {
        let mut moves: Vec<u8> = Vec::new();
        if self.outcome().is_some() {
            return moves;
        }
        let ghost keep = |col: int| at(self.position(), 5, col) is None;
        for col in 0..7u8
            invariant
                self.wf(),
                connect4_outcome(self.position()) is None,
                keep == (|col: int| at(self.position(), 5, col) is None),
                moves@ == ascending(col as nat, keep).map_values(|col: int| col as u8),
        {
            if is_available(&self.board, col).unwrap_or(false) {
                moves.push(col);
            }
            assert(moves@ =~= ascending((col + 1) as nat, keep).map_values(|col: int| col as u8));
        }
        moves
    }

    fn encode_board(&self, viewpoint: Player) -> (input: Vec<Ratio>) {
        encode_planes(self.shadow.cells.as_slice(), viewpoint)
    }

    fn weigh(&self, reply: &Vec<u64>, m: u8) -> (w: u64) {
        proof {
            lemma_choices(self.position(), m);
        }
        reply[m as usize]
    }

    fn play(&mut self, m: u8) {
        let ghost before = self.position();
        let mover = self.next_player();
        proof {
            lemma_choices(before, m);
            lemma_dropped(before, m as int, mover);
        }
        let played = drop_stone(&mut self.board, m);
        assert(played);
        self.shadow.drop(m, mover);
        assert(self.shadow.mirrors(self.position()));
    }

    fn score(&self, learner: Player) -> (points: Ratio) {
        score_outcome(self.outcome(), learner)
    }

    fn lone_choice() -> (b: bool) {
        false
    }
}

/// In a game in order every stone lies on another or on the ground.
pub proof fn stones_rest(game: Connect4Game)
    requires
        game.wf(),
    ensures
        game.position().len() == 42,
        rests(game.position()),
{
}

/// Every move fills a free square for good and leaves every stone at rest, so that no game
/// takes more than forty-two moves.
pub proof fn moves_fill_squares(tiles: Seq<Option<Player>>, col: u8)
    requires
        tiles.len() == 42,
        rests(tiles),
        Connect4Game::choices(tiles).contains(col),
    ensures
        stones(Connect4Game::after(tiles, col)) == stones(tiles) + 1,
        stones(Connect4Game::after(tiles, col)) <= 42,
        rests(Connect4Game::after(tiles, col)),
        forall|i: int|
            0 <= i < 42 && tiles[i] is Some ==> #[trigger] Connect4Game::after(tiles, col)[i]
                == tiles[i],
{
    lemma_choices(tiles, col);
    lemma_dropped(tiles, col as int, by_parity(tiles));
    lemma_stones_bound(dropped(tiles, col as int, by_parity(tiles)));
}

/// There is a move to make exactly while the game goes on.
pub proof fn open_games_have_moves(tiles: Seq<Option<Player>>)
    requires
        tiles.len() == 42,
        rests(tiles),
    ensures
        Connect4Game::choices(tiles).len() > 0 <==> Connect4Game::outcome_of(tiles) is None,
{
    if connect4_outcome(tiles) is None {
        let keep = |col: int| at(tiles, 5, col) is None;
        lemma_ascending(7, keep);
        lemma_some_square_is_free(tiles);
        let i = choose|i: int| 0 <= i < 42 && tiles[i] is None;
        let (row, col) = (i / 7, i % 7);
        assert(at(tiles, row, col) is None);
        lemma_free_above(tiles, row, col);
        assert(ascending(7, keep).contains(col));
    }
}

/// Above a free square of a board at rest there are only free ones.
proof fn lemma_free_above(tiles: Seq<Option<Player>>, row: int, col: int)
    requires
        rests(tiles),
        0 <= row < 6,
        0 <= col < 7,
        at(tiles, row, col) is None,
    ensures
        at(tiles, 5, col) is None,
    decreases 5 - row,
{
    if row < 5 {
        lemma_free_above(tiles, row + 1, col);
    }
}

/// Where there are fewer stones than squares, a square is free.
proof fn lemma_some_square_is_free(tiles: Seq<Option<Player>>)
    requires
        stones(tiles) != tiles.len(),
    ensures
        exists|i: int| 0 <= i < tiles.len() && #[trigger] tiles[i] is None,
    decreases tiles.len(),
{
    if tiles.last() is Some {
        lemma_some_square_is_free(tiles.drop_last());
        let i = choose|i: int|
            0 <= i < tiles.drop_last().len() && #[trigger] tiles.drop_last()[i] is None;
        assert(tiles[i] is None);
    } else {
        assert(tiles[tiles.len() - 1] is None);
    }
}

/// A stone falls into its column until it lies on the ground or on another one, and nothing
/// else changes. It is a stone of `A` on an even number of stones.
pub proof fn stones_fall(tiles: Seq<Option<Player>>, col: u8) -> (row: int)
    requires
        tiles.len() == 42,
        rests(tiles),
        col < 7,
        tiles[35 + col] is None,
    ensures
        0 <= row < 6,
        tiles[7 * row + col] is None,
        row > 0 ==> tiles[7 * (row - 1) + col] is Some,
        Connect4Game::after(tiles, col) == tiles.update(
            7 * row + col,
            Some(
                if stones(tiles) % 2 == 0 {
                    Player::A
                } else {
                    Player::B
                },
            ),
        ),
        Connect4Game::to_move(tiles) == (if stones(tiles) % 2 == 0 {
            Player::A
        } else {
            Player::B
        }),
{
    let row = column_height(tiles, col as int);
    assert(at(tiles, 5, col as int) is None);
    lemma_dropped(tiles, col as int, by_parity(tiles));
    assert(at(tiles, row, col as int) is None);
    if row > 0 && at(tiles, row - 1, col as int) is None {
        lemma_height_bound(tiles, row - 1, col as int);
    }
    row
}

/// A column is no higher than its lowest free square.
proof fn lemma_height_bound(tiles: Seq<Option<Player>>, row: int, col: int)
    requires
        rests(tiles),
        0 <= row < 6,
        0 <= col < 7,
        at(tiles, row, col) is None,
    ensures
        column_height(tiles, col) <= row,
{
    assert(at(tiles, 0, col) is None ==> at(tiles, 1, col) is None);
    assert(at(tiles, 1, col) is None ==> at(tiles, 2, col) is None);
    assert(at(tiles, 2, col) is None ==> at(tiles, 3, col) is None);
    assert(at(tiles, 3, col) is None ==> at(tiles, 4, col) is None);
    assert(at(tiles, 4, col) is None ==> at(tiles, 5, col) is None);
}

/// The moves of an open game are the columns whose topmost square is free, from left to
/// right, and those of a finished one none.
pub proof fn open_columns_are_moves(tiles: Seq<Option<Player>>, col: u8)
    requires
        tiles.len() == 42,
    ensures
        Connect4Game::choices(tiles).contains(col) <==> Connect4Game::outcome_of(tiles) is None
            && col < 7 && tiles[35 + col] is None,
{
    let keep = |c: int| at(tiles, 5, c) is None;
    let numbers = ascending(7, keep);
    lemma_ascending(7, keep);
    if Connect4Game::choices(tiles).contains(col) {
        lemma_choices(tiles, col);
        assert(at(tiles, 5, col as int) is None);
    } else if Connect4Game::outcome_of(tiles) is None && col < 7 && tiles[35 + col] is None {
        assert(keep(col as int));
        assert(numbers.contains(col as int));
        let k = choose|k: int| 0 <= k < numbers.len() && numbers[k] == col;
        assert(Connect4Game::choices(tiles)[k] == col);
    }
}

/// Columns are considered from left to right.
pub proof fn moves_come_in_order(tiles: Seq<Option<Player>>, i: int, j: int)
    requires
        0 <= i < j < Connect4Game::choices(tiles).len(),
    ensures
        Connect4Game::choices(tiles)[i] < Connect4Game::choices(tiles)[j],
{
    let keep = |c: int| at(tiles, 5, c) is None;
    lemma_ascending(7, keep);
    assert(0 <= ascending(7, keep)[i] < ascending(7, keep)[j] < 7);
}

/// Four stones of a player in a row, in a column or on a diagonal end the game, for `A` with
/// a win and for `B` with one too unless `A` has four.
pub proof fn fours_end_the_game(
    tiles: Seq<Option<Player>>,
    p: Player,
    row: int,
    col: int,
    up: int,
    right: int,
)
    requires
        (up == 0 && right == 1) || (up == 1 && right == 0) || (up == 1 && right == 1) || (up == 1
            && right == -1),
        0 <= row < 6,
        0 <= row + 3 * up < 6,
        0 <= col < 7,
        0 <= col + 3 * right < 7,
        tiles[7 * row + col] == Some(p),
        tiles[7 * (row + up) + col + right] == Some(p),
        tiles[7 * (row + 2 * up) + col + 2 * right] == Some(p),
        tiles[7 * (row + 3 * up) + col + 3 * right] == Some(p),
    ensures
        p == Player::A ==> Connect4Game::outcome_of(tiles) == Some(Outcome::WonBy(Player::A)),
        Connect4Game::outcome_of(tiles) == Some(Outcome::WonBy(Player::A))
            || Connect4Game::outcome_of(tiles) == Some(Outcome::WonBy(Player::B)),
{
    assert forall|k: int| 0 <= k < 4 implies #[trigger] at(
        tiles,
        row + k * up,
        col + k * right,
    ) == Some(p) by {
        assert(k == 0 || k == 1 || k == 2 || k == 3);
        assert(up == 0 || up == 1);
        assert(right == 0 || right == 1 || right == -1);
        if k == 0 {
            assert(k * up == 0 && k * right == 0);
        } else if k == 1 {
            assert(k * up == up && k * right == right);
        } else if k == 2 {
            assert(k * up == 2 * up && k * right == 2 * right);
        } else {
            assert(k * up == 3 * up && k * right == 3 * right);
        }
    }
    assert(holds_four(tiles, p, row, col, up, right));
    let flat = holds_four(tiles, p, row, col, 0, 1);
    if up == 0 {
        assert(flat);
    } else if right == 0 {
        assert(holds_four(tiles, p, row, col, 1, 0));
    } else if right == 1 {
        assert(holds_four(tiles, p, row, col, 1, 1));
    } else {
        assert(holds_four(tiles, p, row, col, 1, -1));
    }
    assert(has_four(tiles, p));
}

/// A winner has four stones in a row, in a column or on a diagonal.
pub proof fn winners_have_four(tiles: Seq<Option<Player>>, p: Player) -> (at_and_to: (
    int,
    int,
    int,
    int,
))
    requires
        Connect4Game::outcome_of(tiles) == Some(Outcome::WonBy(p)),
    ensures
        ({
            let (row, col, up, right) = at_and_to;
            &&& (up == 0 && right == 1) || (up == 1 && right == 0) || (up == 1 && right == 1) || (
            up == 1 && right == -1)
            &&& 0 <= row < 6 && 0 <= row + 3 * up < 6
            &&& 0 <= col < 7 && 0 <= col + 3 * right < 7
            &&& tiles[7 * row + col] == Some(p)
            &&& tiles[7 * (row + up) + col + right] == Some(p)
            &&& tiles[7 * (row + 2 * up) + col + 2 * right] == Some(p)
            &&& tiles[7 * (row + 3 * up) + col + 3 * right] == Some(p)
        }),
{
    assert(has_four(tiles, p));
    let (row, col) = choose|row: int, col: int|
        {
            ||| #[trigger] holds_four(tiles, p, row, col, 0, 1)
            ||| holds_four(tiles, p, row, col, 1, 0)
            ||| holds_four(tiles, p, row, col, 1, 1)
            ||| holds_four(tiles, p, row, col, 1, -1)
        };
    let (up, right) = if holds_four(tiles, p, row, col, 0, 1) {
        (0int, 1int)
    } else if holds_four(tiles, p, row, col, 1, 0) {
        (1int, 0int)
    } else if holds_four(tiles, p, row, col, 1, 1) {
        (1int, 1int)
    } else {
        (1int, -1int)
    };
    assert(holds_four(tiles, p, row, col, up, right));
    assert(at(tiles, row + 0 * up, col + 0 * right) == Some(p));
    assert(at(tiles, row + 1 * up, col + 1 * right) == Some(p));
    assert(at(tiles, row + 2 * up, col + 2 * right) == Some(p));
    assert(at(tiles, row + 3 * up, col + 3 * right) == Some(p));
    (row, col, up, right)
}

/// A game without a winner is a draw exactly where all forty-two squares are taken.
pub proof fn full_boards_are_draws(tiles: Seq<Option<Player>>)
    ensures
        Connect4Game::outcome_of(tiles) == Some(Outcome::Draw) ==> stones(tiles) == 42,
        Connect4Game::outcome_of(tiles) is None ==> stones(tiles) != 42,
{
}

/// The column that a network plays is open, and its own output is not less than that of any
/// other open column; of equal ones it is the first.
pub proof fn networks_play_what_they_want_most(
    tiles: Seq<Option<Player>>,
    reply: Seq<u64>,
    k: int,
    j: int,
)
    requires
        is_first_best(weights::<Connect4Game>(reply, Connect4Game::choices(tiles)), k),
        0 <= j < Connect4Game::choices(tiles).len(),
        forall|col: u8| #[trigger]
            Connect4Game::choices(tiles).contains(col) ==> rank(reply[col as int]) is Some,
    ensures
        0 <= k < Connect4Game::choices(tiles).len(),
        ({
            let (played, other) = (
                Connect4Game::choices(tiles)[k],
                Connect4Game::choices(tiles)[j],
            );
            &&& !above(reply[other as int], reply[played as int])
            &&& j < k ==> above(reply[played as int], reply[other as int])
        }),
{
    let wishes = weights::<Connect4Game>(reply, Connect4Game::choices(tiles));
    assert(Connect4Game::choices(tiles).contains(Connect4Game::choices(tiles)[0]));
    assert(Connect4Game::choices(tiles).contains(Connect4Game::choices(tiles)[j]));
    the_greatest_wish_decides(wishes, k, j);
}

/// Each player is shown its own stones first and those of the other after them, so that the
/// two see each other's halves swapped.
pub proof fn players_see_their_side(tiles: Seq<Option<Player>>, viewpoint: Player, i: int)
    requires
        tiles.len() == 42,
        0 <= i < 42,
    ensures
        ({
            let shown = Connect4Game::picture(tiles, viewpoint);
            let opposite = Connect4Game::picture(tiles, viewpoint.rival());
            &&& shown.len() == 84
            &&& shown[i] == (Ratio {
                num: if tiles[i] == Some(viewpoint) {
                    1
                } else {
                    0
                },
                den: 1,
            })
            &&& shown[42 + i] == (Ratio {
                num: if tiles[i] == Some(viewpoint.rival()) {
                    1
                } else {
                    0
                },
                den: 1,
            })
            &&& opposite[i] == shown[42 + i]
            &&& opposite[42 + i] == shown[i]
        }),
{
    planes_show_both_sides(tiles, viewpoint, i);
}

/// The winner scores a point, the loser nothing, and a draw is worth half a point.
pub proof fn winners_score(position: Seq<Option<Player>>, p: Player)
    ensures
        Connect4Game::outcome_of(position) == Some(Outcome::WonBy(p)) ==> {
            &&& Connect4Game::points(position, p) == (Ratio { num: 1, den: 1 })
            &&& Connect4Game::points(position, p.rival()) == (Ratio { num: 0, den: 1 })
        },
        Connect4Game::outcome_of(position) == Some(Outcome::Draw) ==> {
            Connect4Game::points(position, p) == (Ratio { num: 1, den: 2 })
        },
        Connect4Game::outcome_of(position) is None ==> Connect4Game::points(position, p) == (
        Ratio { num: 0, den: 1 }),
{
}

/// Games start on an empty board, and an evaluation takes eight of them; networks have
/// eighty-four inputs and seven outputs, and every move is asked for.
pub proof fn games_are_set_up(i: int)
    requires
        0 <= i < 42,
    ensures
        Connect4Game::opening().len() == 42,
        Connect4Game::opening()[i] is None,
        Connect4Game::games() == 8,
        Connect4Game::dims() == (84usize, 7usize),
        Connect4Game::reply_size() == 7,
        Connect4Game::move_limit() is None,
        !Connect4Game::plays_lone_choice(),
{
}

} // verus!
