use board_game::board::{Board, BoardMoves};
use board_game::games::ataxx::AtaxxBoard;
use board_game::games::connect4::Connect4;
use board_game::games::oware::OwareBoard;
use board_game::games::ttt::TTTBoard;
use board_game::util::coord::{Coord3, Coord8};
use eevee_eval::random::WyRng;
use eevee_eval::ratio::Ratio;
use eevee_eval::scenarios::board_games::ataxx::{
    cell_index, render_ataxx, score_move, AtaxxGame, AtaxxMove,
};
use eevee_eval::scenarios::board_games::connect4::{Connect4Game, ShadowBoard};
use eevee_eval::scenarios::board_games::oware::{oware_digit, render_oware, OwareGame};
use eevee_eval::scenarios::board_games::ttt::{coord, render_ttt, TttGame};
use eevee_eval::scenarios::board_games::{
    refresh_hook, score_outcome, Cell, CoEvolGame, CoEvolScenario, Evaluation, Match, Outcome,
    Pairing, Player, Ply, Seat,
};
use eevee_eval::share::Shareable;
use internal_iterator::InternalIterator;
use rand::{Rng, RngCore};
use std::marker::PhantomData;
use std::rc::Rc;

fn noise(rng: &mut WyRng, n: usize) -> Vec<u64> {
    (0..n).map(|_| ((rng.next_u64() >> 11) as f64 / (1u64 << 53) as f64).to_bits()).collect()
}

fn wish(n: usize, wanted: usize) -> Vec<u64> {
    (0..n).map(|i| if i == wanted { 1.0f64.to_bits() } else { 0.0f64.to_bits() }).collect()
}

fn nums(input: &[Ratio]) -> Vec<i32> {
    input.iter().map(|r| r.num).collect()
}

fn outer(p: Player) -> board_game::board::Player {
    match p {
        Player::A => board_game::board::Player::A,
        Player::B => board_game::board::Player::B,
    }
}

fn inner(o: Option<board_game::board::Outcome>) -> Option<Outcome> {
    match o {
        None => None,
        Some(board_game::board::Outcome::Draw) => Some(Outcome::Draw),
        Some(board_game::board::Outcome::WonBy(board_game::board::Player::A)) => {
            Some(Outcome::WonBy(Player::A))
        }
        Some(board_game::board::Outcome::WonBy(board_game::board::Player::B)) => {
            Some(Outcome::WonBy(Player::B))
        }
    }
}

/// Plays a match to its end with networks that reply at random and returns the number of
/// moves and the match.
fn play_out<T: CoEvolGame>(mut game: Match<T>, replies: usize, seed: u64) -> (usize, Match<T>) {
    let mut networks = WyRng::seeded(seed);
    let mut chance = WyRng::seeded(seed.wrapping_add(1));
    let mut moves = 0;
    loop {
        match game.advance(&mut chance) {
            Ply::Over => return (moves, game),
            Ply::Played => moves += 1,
            Ply::Ask { input, .. } => {
                assert_eq!(input.len(), T::io().0);
                let reply = noise(&mut networks, replies);
                game.reply(&reply);
                moves += 1;
            }
        }
    }
}

fn wish_by<T: CoEvolGame>(game: &mut Match<T>, size: usize, wanted: usize) {
    let mut chance = WyRng::seeded(0);
    assert!(matches!(game.advance(&mut chance), Ply::Ask { .. }));
    game.reply(&wish(size, wanted));
}

#[test]
fn squares_are_numbered_row_by_row() {
    assert_eq!(coord(0), Cell { x: 0, y: 0 });
    assert_eq!(coord(5), Cell { x: 2, y: 1 });
    assert_eq!(coord(8), Cell { x: 2, y: 2 });
    assert_eq!(cell_index(Cell { x: 3, y: 2 }), 17);
    assert_eq!(cell_index(Cell { x: 6, y: 6 }), 48);
}

#[test]
fn outcomes_are_scored() {
    let a = Player::A;
    let win = Ratio { num: 1, den: 1 };
    let loss = Ratio { num: 0, den: 1 };
    assert_eq!(score_outcome(Some(Outcome::WonBy(Player::A)), a), win);
    assert_eq!(score_outcome(Some(Outcome::WonBy(Player::B)), a), loss);
    assert_eq!(score_outcome(Some(Outcome::Draw), a), Ratio { num: 1, den: 2 });
    assert_eq!(score_outcome(None, a), loss);
    assert_eq!(Player::A.other(), Player::B);
    assert_eq!(Player::B.other(), Player::A);
}

#[test]
fn games_have_their_dimensions() {
    assert_eq!((TttGame::io(), TttGame::games_per_eval()), ((18, 9), 8));
    assert_eq!((Connect4Game::io(), Connect4Game::games_per_eval()), ((84, 7), 8));
    assert_eq!((OwareGame::io(), OwareGame::games_per_eval()), ((14, 6), 6));
    assert_eq!((AtaxxGame::io(), AtaxxGame::games_per_eval()), ((98, 49), 2));
    assert_eq!(TttGame::ply_limit(), None);
    assert_eq!(OwareGame::ply_limit(), Some(200));
}

#[test]
fn a_row_wins_at_tic_tac_toe() {
    let mut game = Match::<TttGame>::new(Player::A, true);
    for square in [0, 3, 1, 4, 2] {
        wish_by(&mut game, 9, square);
    }
    assert_eq!(game.game.outcome(), Some(Outcome::WonBy(Player::A)));
    assert_eq!(game.score(), Ratio { num: 1, den: 1 });
    assert_eq!(game.game.score(Player::B), Ratio { num: 0, den: 1 });
    assert!(game.game.legal_moves().is_empty());
    assert!(matches!(game.advance(&mut WyRng::seeded(0)), Ply::Over));
    assert_eq!(render_ttt(&game.game), "\x1b[H░ ░ ░\n▓ ▓ ·\n· · ·\n\n");
}

#[test]
fn a_full_board_is_a_draw() {
    let mut game = Match::<TttGame>::new(Player::B, true);
    for square in [0, 1, 2, 4, 3, 5, 7, 6, 8] {
        wish_by(&mut game, 9, square);
    }
    assert_eq!(game.game.outcome(), Some(Outcome::Draw));
    assert_eq!(game.score(), Ratio { num: 1, den: 2 });
    assert_eq!(render_ttt(&game.game), "\x1b[H░ ▓ ░\n░ ▓ ▓\n▓ ░ ░\n\n");
}

#[test]
fn players_see_their_own_stones_first() {
    let mut game = Match::<TttGame>::new(Player::A, true);
    wish_by(&mut game, 9, 4);
    wish_by(&mut game, 9, 0);
    let a = nums(&game.game.encode_board(Player::A));
    let b = nums(&game.game.encode_board(Player::B));
    let mut expected = vec![0; 18];
    expected[4] = 1;
    expected[9] = 1;
    assert_eq!(a, expected);
    assert_eq!(b[..9], a[9..]);
    assert_eq!(b[9..], a[..9]);
}

#[test]
fn the_first_of_equal_wishes_is_played() {
    let game = Match::<TttGame>::new(Player::A, true);
    assert_eq!(game.network_move(&vec![0; 9]), Some(coord(0)));
    let mut reply = vec![0; 9];
    reply[3] = 1.0f64.to_bits();
    reply[7] = 1.0f64.to_bits();
    assert_eq!(game.network_move(&reply), Some(coord(3)));
    reply[0] = f64::NAN.to_bits();
    assert_eq!(game.network_move(&reply), Some(coord(0)));
    let mut reply = vec![(-1.0f64).to_bits(); 9];
    reply[5] = f64::NAN.to_bits();
    reply[6] = (-0.5f64).to_bits();
    assert_eq!(game.network_move(&reply), Some(coord(6)));
}

#[test]
fn taken_squares_are_not_wished_for() {
    let mut game = Match::<TttGame>::new(Player::A, true);
    wish_by(&mut game, 9, 0);
    assert_eq!(game.network_move(&wish(9, 0)), Some(coord(1)));
}

#[test]
fn chance_moves_where_there_is_no_opponent() {
    for seed in 0..20 {
        let mut game = Match::<TttGame>::new(Player::B, false);
        let mut rng = WyRng::seeded(seed);
        let drawn = WyRng::seeded(seed).random_range(0..9usize);
        assert_eq!(game.random_move(&mut WyRng::seeded(seed)), Some(coord(drawn)));
        assert!(matches!(game.advance(&mut rng), Ply::Played));
        assert_eq!(nums(&game.game.encode_board(Player::A))[drawn], 1);
        assert!(matches!(game.advance(&mut rng), Ply::Ask { seat: Seat::Learner, .. }));
    }
}

#[test]
fn asked_seats_take_turns() {
    let mut game = Match::<TttGame>::new(Player::B, true);
    let mut rng = WyRng::seeded(1);
    assert!(matches!(game.advance(&mut rng), Ply::Ask { seat: Seat::Opponent, .. }));
    game.reply(&wish(9, 4));
    assert!(matches!(game.advance(&mut rng), Ply::Ask { seat: Seat::Learner, .. }));
    game.reply(&wish(9, 0));
    assert!(matches!(game.advance(&mut rng), Ply::Ask { seat: Seat::Opponent, .. }));
    assert_eq!(rng.state, 1);
}

#[test]
fn tic_tac_toe_follows_the_board() {
    for seed in 0..200 {
        let mut rng = WyRng::seeded(seed);
        let mut game = TttGame::start();
        let mut board = TTTBoard::default();
        let mut moves = 0;
        loop {
            assert_eq!(game.outcome(), inner(board.outcome()));
            let legal = game.legal_moves();
            assert_eq!(legal.is_empty(), board.is_done());
            if board.is_done() {
                break;
            }
            assert_eq!(outer(game.next_player()), board.next_player());
            for i in 0..9 {
                let free = board.tile(Coord3::from_xy((i % 3) as u8, (i / 3) as u8)).is_none();
                assert_eq!(legal.contains(&coord(i)), free);
            }
            let m = legal[rng.random_range(0..legal.len())];
            game.play(m);
            board.play(Coord3::from_xy(m.x, m.y)).unwrap();
            moves += 1;
        }
        assert!(moves <= 9);
    }
}

#[test]
fn four_in_a_column_win() {
    let mut game = Match::<Connect4Game>::new(Player::B, true);
    for column in [0, 1, 0, 1, 0, 1, 2, 1] {
        wish_by(&mut game, 7, column);
    }
    assert_eq!(game.game.outcome(), Some(Outcome::WonBy(Player::B)));
    assert_eq!(game.score(), Ratio { num: 1, den: 1 });
}

#[test]
fn stones_fall_to_the_bottom() {
    let mut game = Match::<Connect4Game>::new(Player::A, true);
    for column in [3, 3, 6] {
        wish_by(&mut game, 7, column);
    }
    let seen = nums(&game.game.encode_board(Player::A));
    let taken: Vec<usize> = (0..84).filter(|i| seen[*i] == 1).collect();
    assert_eq!(taken, [3, 6, 42 + 10]);
}

#[test]
fn full_columns_are_closed() {
    let mut game = Match::<Connect4Game>::new(Player::A, true);
    for _ in 0..6 {
        wish_by(&mut game, 7, 2);
    }
    assert_eq!(game.game.legal_moves(), [0, 1, 3, 4, 5, 6]);
}

#[test]
fn shadows_mirror_their_boards() {
    let mut shadow = ShadowBoard::default();
    assert_eq!(shadow.cells, [None; 42]);
    assert_eq!(shadow.heights, [0; 7]);
    shadow.drop(5, Player::A);
    shadow.drop(5, Player::B);
    assert_eq!(shadow.cell(0, 5), Some(Player::A));
    assert_eq!(shadow.cell(1, 5), Some(Player::B));
    assert_eq!(shadow.cell(2, 5), None);
    assert_eq!(shadow.heights, [0, 0, 0, 0, 0, 2, 0]);
}

#[test]
fn connect_four_follows_the_board() {
    let mut finished = [0; 3];
    for seed in 0..300 {
        let mut rng = WyRng::seeded(seed);
        let mut game = Connect4Game::start();
        let mut board = Connect4::default();
        let mut moves = 0;
        loop {
            assert_eq!(game.outcome(), inner(board.outcome()));
            let legal = game.legal_moves();
            assert_eq!(legal.is_empty(), board.is_done());
            if board.is_done() {
                break;
            }
            assert_eq!(outer(game.next_player()), board.next_player());
            let expected: Vec<u8> =
                (0..7).filter(|c| board.is_available_move(*c).unwrap()).collect();
            assert_eq!(legal, expected);
            let m = legal[rng.random_range(0..legal.len())];
            game.play(m);
            board.play(m).unwrap();
            moves += 1;
            assert_eq!(nums(&game.encode_board(Player::A)).iter().sum::<i32>(), moves);
        }
        assert!(moves <= 42);
        match game.outcome() {
            Some(Outcome::WonBy(Player::A)) => finished[0] += 1,
            Some(Outcome::WonBy(Player::B)) => finished[1] += 1,
            _ => finished[2] += 1,
        }
    }
    assert!(finished[0] > 0 && finished[1] > 0);
}

#[test]
fn numbers_above_nine_have_one_sign() {
    assert_eq!(oware_digit(0), '🯰');
    assert_eq!(oware_digit(4), '🯴');
    assert_eq!(oware_digit(9), '🯹');
    assert_eq!(oware_digit(10), '🮯');
    assert_eq!(oware_digit(48), '🮯');
}

#[test]
fn oware_starts_with_four_seeds_in_each_pit() {
    let game = OwareGame::start();
    assert_eq!(render_oware(&game), "\x1b[HB 🯴🯴🯴🯴🯴🯴 🯰\nA 🯴🯴🯴🯴🯴🯴 🯰\n\n");
    let seen = game.encode_board(Player::A);
    assert_eq!(nums(&seen), [4, 4, 4, 4, 4, 4, 4, 4, 4, 4, 4, 4, 0, 0]);
    assert!(seen.iter().all(|r| r.den == 48));
    assert_eq!(game.legal_moves(), [0, 1, 2, 3, 4, 5]);
    assert_eq!(game.score(Player::A), Ratio { num: 1, den: 2 });
}

#[test]
fn seeds_are_sown_around_the_board() {
    let mut game = OwareGame::start();
    game.play(4);
    assert_eq!(game.next_player(), Player::B);
    assert_eq!(
        nums(&game.encode_board(Player::A)),
        [4, 4, 4, 4, 0, 5, 5, 5, 5, 4, 4, 4, 0, 0]
    );
    assert_eq!(
        nums(&game.encode_board(Player::B)),
        [5, 5, 5, 4, 4, 4, 4, 4, 4, 4, 0, 5, 0, 0]
    );
    assert_eq!(render_oware(&game), "\x1b[HB 🯴🯴🯴🯵🯵🯵 🯰\nA 🯴🯴🯴🯴🯰🯵 🯰\n\n");
}

#[test]
fn oware_follows_the_board() {
    let mut ended = 0;
    for seed in 0..200 {
        let mut rng = WyRng::seeded(seed);
        let mut game = OwareGame::start();
        let mut board = OwareBoard::<6>::default();
        for _ in 0..200 {
            assert_eq!(game.outcome(), inner(board.outcome()));
            let legal = game.legal_moves();
            if board.is_done() {
                assert!(legal.is_empty());
                ended += 1;
                break;
            }
            let expected: Vec<usize> =
                (0..6).filter(|p| board.is_available_move(*p).unwrap()).collect();
            assert_eq!(legal, expected);
            assert_eq!(outer(game.next_player()), board.next_player());
            for player in [Player::A, Player::B] {
                let seen = nums(&game.encode_board(player));
                assert_eq!(seen.iter().sum::<i32>(), 48);
                for pit in 0..6 {
                    assert_eq!(seen[pit], i32::from(board.get_seeds(outer(player), pit)));
                }
                assert_eq!(seen[12], i32::from(board.score(outer(player))));
            }
            if legal.is_empty() {
                break;
            }
            let m = legal[rng.random_range(0..legal.len())];
            game.play(m);
            board.play(m).unwrap();
        }
        let (a, b) = (game.score(Player::A), game.score(Player::B));
        assert_eq!(a.num * b.den + b.num * a.den, a.den * b.den);
    }
    assert!(ended > 0);
}

#[test]
fn unfinished_oware_is_scored_by_captures() {
    for seed in 0..50 {
        let mut rng = WyRng::seeded(seed);
        let mut game = OwareGame::start();
        for _ in 0..20 {
            let legal = game.legal_moves();
            if legal.is_empty() {
                break;
            }
            game.play(legal[rng.random_range(0..legal.len())]);
        }
        let seen = nums(&game.encode_board(Player::A));
        if game.outcome().is_none() && seen[12] + seen[13] > 0 {
            let expected = Ratio { num: seen[12], den: seen[12] + seen[13] };
            assert_eq!(game.score(Player::A), expected);
        }
    }
}

#[test]
fn oware_stops_after_its_last_ply() {
    let mut stopped = 0;
    for seed in 0..60 {
        let (moves, game) = play_out(Match::<OwareGame>::new(Player::A, true), 6, seed);
        assert!(moves <= 200);
        assert_eq!(game.plies, moves);
        if game.game.outcome().is_none() {
            stopped += 1;
        }
    }
    println!("{stopped} of 60 games were stopped");
    let mut game = Match::<OwareGame>::exhibition(Some(0));
    assert!(matches!(game.advance(&mut WyRng::seeded(0)), Ply::Over));
}

#[test]
fn ataxx_starts_in_the_corners() {
    let game = AtaxxGame::start();
    assert_eq!(
        render_ataxx(&game),
        "\x1b[H▓ · · · · · ░\n· · · · · · ·\n· · · · · · ·\n· · · · · · ·\n\
         · · · · · · ·\n· · · · · · ·\n░ · · · · · ▓\n\n"
    );
    assert_eq!(game.next_player(), Player::A);
    assert_eq!(game.legal_moves().len(), 16);
}

#[test]
fn wishes_are_read_off_the_reply() {
    let reply: Vec<u64> = (0..98).collect();
    let (from, to) = (Cell { x: 0, y: 0 }, Cell { x: 2, y: 1 });
    assert_eq!(score_move(&reply, AtaxxMove::Copy { to }), 9);
    assert_eq!(score_move(&reply, AtaxxMove::Jump { from, to }), 58);
    assert_eq!(score_move(&reply, AtaxxMove::Pass), f64::NEG_INFINITY.to_bits());
}

fn raw_moves(board: &AtaxxBoard) -> Vec<AtaxxMove> {
    let cell = |c: Coord8| Cell { x: c.x(), y: c.y() };
    let mut list = vec![];
    board.available_moves().unwrap().for_each(|m| {
        list.push(match m {
            board_game::games::ataxx::Move::Pass => AtaxxMove::Pass,
            board_game::games::ataxx::Move::Copy { to } => AtaxxMove::Copy { to: cell(to) },
            board_game::games::ataxx::Move::Jump { from, to } => {
                AtaxxMove::Jump { from: cell(from), to: cell(to) }
            }
        })
    });
    list
}

fn play_raw(board: &mut AtaxxBoard, m: AtaxxMove) {
    let coord = |c: Cell| Coord8::from_xy(c.x, c.y);
    board
        .play(match m {
            AtaxxMove::Pass => board_game::games::ataxx::Move::Pass,
            AtaxxMove::Copy { to } => board_game::games::ataxx::Move::Copy { to: coord(to) },
            AtaxxMove::Jump { from, to } => {
                board_game::games::ataxx::Move::Jump { from: coord(from), to: coord(to) }
            }
        })
        .unwrap();
}

#[test]
fn ataxx_follows_the_board() {
    for seed in 0..40 {
        let mut rng = WyRng::seeded(seed);
        let mut game = AtaxxGame::start();
        let mut board = AtaxxBoard::diagonal(7);
        let mut moves = 0;
        loop {
            assert_eq!(game.outcome(), inner(board.outcome()));
            let legal = game.legal_moves();
            assert_eq!(legal.is_empty(), board.is_done());
            if board.is_done() {
                break;
            }
            assert_eq!(outer(game.next_player()), board.next_player());
            assert_eq!(legal, raw_moves(&board));
            let seen = nums(&game.encode_board(Player::A));
            for i in 0..49usize {
                let tile = board.tile(Coord8::from_xy((i % 7) as u8, (i / 7) as u8));
                assert_eq!(seen[i] == 1, tile == Some(board_game::board::Player::A));
                assert_eq!(seen[49 + i] == 1, tile == Some(board_game::board::Player::B));
            }
            let m = legal[rng.random_range(0..legal.len())];
            game.play(m);
            play_raw(&mut board, m);
            moves += 1;
        }
        assert!(moves <= 4691);
    }
}

#[test]
fn ataxx_takes_over_neighbours() {
    let mut game = AtaxxGame::start();
    game.play(AtaxxMove::Jump { from: Cell { x: 6, y: 0 }, to: Cell { x: 4, y: 0 } });
    game.play(AtaxxMove::Copy { to: Cell { x: 1, y: 0 } });
    game.play(AtaxxMove::Jump { from: Cell { x: 4, y: 0 }, to: Cell { x: 2, y: 0 } });
    assert!(render_ataxx(&game).starts_with("\x1b[H▓ ░ ░ · · · ·\n"));
}

#[test]
fn ataxx_matches_end() {
    for seed in 0..10 {
        let (_, game) = play_out(Match::<AtaxxGame>::new(Player::A, true), 98, seed);
        assert!(game.game.outcome().is_some());
        let (moves, _) = play_out(Match::<AtaxxGame>::exhibition(Some(30)), 98, seed);
        assert!(moves <= 30);
    }
}

#[test]
fn other_matches_end() {
    for seed in 0..50 {
        let (moves, game) = play_out(Match::<TttGame>::new(Player::A, true), 9, seed);
        assert!(moves <= 9 && game.game.outcome().is_some());
        let (moves, game) = play_out(Match::<Connect4Game>::new(Player::B, false), 7, seed);
        assert!(moves <= 42 && game.game.outcome().is_some());
    }
}

#[test]
fn exhibitions_put_networks_on_both_sides() {
    let mut game = Match::<TttGame>::exhibition(None);
    let mut rng = WyRng::seeded(0);
    assert!(matches!(game.advance(&mut rng), Ply::Ask { seat: Seat::Learner, .. }));
    game.reply(&wish(9, 0));
    assert!(matches!(game.advance(&mut rng), Ply::Ask { seat: Seat::Opponent, .. }));
}

#[test]
fn an_evaluation_against_nobody_is_left_to_chance() {
    let mut scenario = CoEvolScenario::<TttGame, u8>::new(vec![], 5);
    assert_eq!(scenario.io(), (18, 9));
    assert_eq!(scenario.games(), 8);
    let evaluation = scenario.eval();
    assert_eq!(scenario.seed_counter, 6);
    assert_eq!(evaluation.rng.state, 5);
    assert!(evaluation.opponents.is_empty());
    assert_eq!(evaluation.pairing(0), Pairing { learner: Player::A, opponent: None });
    assert_eq!(evaluation.pairing(1), Pairing { learner: Player::B, opponent: None });
    assert_eq!(scenario.pairings(&evaluation).len(), 8);
}

#[test]
fn an_evaluation_draws_its_opponents() {
    let mut scenario = CoEvolScenario::<OwareGame, char>::new(vec!['a', 'b', 'c'], u64::MAX);
    let evaluation = scenario.eval();
    assert_eq!(scenario.seed_counter, 0);
    let mut rng = WyRng::seeded(u64::MAX);
    let drawn: Vec<usize> = (0..6).map(|_| rng.random_range(0..3usize)).collect();
    assert_eq!(evaluation.opponents, drawn);
    assert_eq!(evaluation.rng.state, rng.state);
    let pairings = scenario.pairings(&evaluation);
    assert_eq!(pairings.len(), 6);
    for i in 0..6 {
        assert_eq!(pairings[i], evaluation.pairing(i));
        let learner = if i % 2 == 0 { Player::A } else { Player::B };
        assert_eq!(evaluation.pairing(i), Pairing { learner, opponent: Some(drawn[i]) });
    }
}

#[test]
fn opponents_are_used_in_turn() {
    let evaluation = Evaluation { rng: WyRng::seeded(0), opponents: vec![4, 7] };
    let used: Vec<Option<usize>> = (0..5).map(|i| evaluation.pairing(i).opponent).collect();
    assert_eq!(used, [Some(4), Some(7), Some(4), Some(7), Some(4)]);
}

#[test]
fn the_hall_of_fame_keeps_the_newest() {
    let mut pool = vec![];
    refresh_hook(&mut pool, None::<usize>);
    assert!(pool.is_empty());
    for champion in 0..100 {
        refresh_hook(&mut pool, Some(champion));
        assert!(pool.len() <= 64);
        assert_eq!(pool.last(), Some(&champion));
    }
    assert_eq!(pool, (36..100).collect::<Vec<usize>>());
    refresh_hook(&mut pool, None);
    assert_eq!(pool.len(), 64);
}

#[test]
fn an_overfull_hall_is_cut_back() {
    let mut pool: Vec<usize> = (0..80).collect();
    refresh_hook(&mut pool, Some(80));
    assert_eq!(pool, (17..81).collect::<Vec<usize>>());
}

#[test]
fn longer_replies_are_read_from_the_front() {
    let mut game = Match::<TttGame>::new(Player::A, true);
    let mut reply = wish(9, 4);
    reply.push(9.0f64.to_bits());
    assert_eq!(game.network_move(&reply), Some(coord(4)));
    game.reply(&reply);
    assert_eq!(nums(&game.game.encode_board(Player::A))[4], 1);
    let reply: Vec<u64> = (0..120).collect();
    assert_eq!(score_move(&reply, AtaxxMove::Copy { to: Cell { x: 2, y: 1 } }), 9);
}

#[test]
fn ataxx_lists_copies_before_jumps() {
    let jump = |a: (u8, u8), b: (u8, u8)| AtaxxMove::Jump {
        from: Cell { x: a.0, y: a.1 },
        to: Cell { x: b.0, y: b.1 },
    };
    let copy = |b: (u8, u8)| AtaxxMove::Copy { to: Cell { x: b.0, y: b.1 } };
    let (top, bottom) = ((6, 0), (0, 6));
    assert_eq!(
        AtaxxGame::start().legal_moves(),
        [
            copy((5, 0)),
            copy((5, 1)),
            copy((6, 1)),
            copy((0, 5)),
            copy((1, 5)),
            copy((1, 6)),
            jump(top, (4, 0)),
            jump(top, (4, 1)),
            jump(top, (4, 2)),
            jump(top, (5, 2)),
            jump(top, (6, 2)),
            jump(bottom, (0, 4)),
            jump(bottom, (1, 4)),
            jump(bottom, (2, 4)),
            jump(bottom, (2, 5)),
            jump(bottom, (2, 6)),
        ]
    );
}

/// The legal moves of a board in the order of their squares, by its tiles alone.
fn sorted_moves(board: &AtaxxBoard) -> Vec<AtaxxMove> {
    let cells: Vec<Cell> = (0..49u8).map(|i| Cell { x: i % 7, y: i / 7 }).collect();
    let tile = |c: &Cell| board.tile(Coord8::from_xy(c.x, c.y));
    let mover = Some(board.next_player());
    let apart = |a: &Cell, b: &Cell| a.x.abs_diff(b.x).max(a.y.abs_diff(b.y));
    let mut list = vec![];
    for to in cells.iter().filter(|c| tile(c).is_none()) {
        if cells.iter().any(|from| tile(from) == mover && apart(from, to) == 1) {
            list.push(AtaxxMove::Copy { to: *to });
        }
    }
    for to in cells.iter().filter(|c| tile(c).is_none()) {
        for from in cells.iter().filter(|c| tile(c) == mover && apart(c, to) == 2) {
            list.push(AtaxxMove::Jump { from: *from, to: *to });
        }
    }
    if list.is_empty() {
        list.push(AtaxxMove::Pass);
    }
    list
}

#[test]
fn ataxx_lists_moves_by_their_squares() {
    for seed in 100..130 {
        let mut rng = WyRng::seeded(seed);
        let mut game = AtaxxGame::start();
        let mut board = AtaxxBoard::diagonal(7);
        while !board.is_done() {
            let legal = game.legal_moves();
            assert_eq!(legal, sorted_moves(&board));
            let m = legal[rng.random_range(0..legal.len())];
            game.play(m);
            play_raw(&mut board, m);
        }
    }
}

#[test]
fn board_scenarios_are_shared_whatever_their_game() {
    let scenario = CoEvolScenario::<TttGame, u8>::new(vec![1], 0);
    assert!(is_shareable(&scenario));
    assert_eq!(scenario.pool, [1]);
    let scenario = CoEvolScenario::<Rc<u8>, u8> { pool: vec![], seed_counter: 0, game: PhantomData };
    assert!(is_shareable(&scenario));
}

fn is_shareable<T: Shareable + Send + Sync>(_: &T) -> bool {
    true
}
