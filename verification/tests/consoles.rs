use eevee_eval::scenarios::c;
use eevee_eval::scenarios::console::{release_buttons, ConsoleAction};
use eevee_eval::scenarios::console::ConsoleAction::{Frame, Poke, PressStart, Ready, ReleaseStart};
use eevee_eval::scenarios::mario::{
    apply_outputs, boot_action, copy_pixels, draw_mario_footer, fill_sense, mario_progress,
    Episode, MarioScenario,
};
use eevee_eval::scenarios::nes;
use eevee_eval::scenarios::nes::Phase;
use eevee_eval::share::Shareable;
use eevee_eval::tetris::{
    draw_footer, next_seed, read_watch, update_watch, watch_hook, Evaluation, Next, Stage,
    TetrisEngine, TetrisScenario, Watch, BOARD_SIZE,
};
use std::cell::Cell;
use std::marker::PhantomData;
use std::rc::Rc;

fn bits(values: &[f64]) -> Vec<u64> {
    values.iter().map(|v| v.to_bits()).collect()
}

fn watch(generation: usize) -> Watch {
    Watch { generation, max_fitness: 0 }
}

#[test]
fn seeds_come_from_the_generator() {
    let mut counter = 0;
    assert_eq!(next_seed(&mut counter), 0xf0d6);
    assert_eq!(next_seed(&mut counter), 48817);
    assert_eq!(counter, 2);
    counter = u64::MAX;
    assert_eq!(next_seed(&mut counter), 21662);
    assert_eq!(counter, 0);
}

#[test]
fn a_tetris_scenario_has_the_dimensions_of_its_engine() {
    let scenario = TetrisScenario::<c::CEngine>::new(3, 4, Some(5));
    assert_eq!((scenario.level, scenario.games, scenario.seed), (3, 4, Some(5)));
    assert_eq!(scenario.io(), (200, 6));
    assert_eq!(nes::scenario(1, 2).io(), (200, 8));
    assert_eq!(c::CEngine::outputs(), 6);
    assert_eq!(nes::NesEngine::outputs(), 8);
}

#[test]
fn a_fixed_seed_is_used_for_every_game() {
    let mut counter = 9;
    let scenario = nes::scenario(77, 0);
    assert_eq!(scenario.game_seed(&mut counter), 77);
    assert_eq!(scenario.game_seed(&mut counter), 77);
    assert_eq!(counter, 9);
}

#[test]
fn seed_zero_stands_for_new_seeds() {
    let mut counter = 0;
    let scenario = nes::scenario(0, 7);
    assert_eq!((scenario.level, scenario.games, scenario.seed), (7, 1, None));
    assert_eq!(scenario.game_seed(&mut counter), 0xf0d6);
    assert_eq!(counter, 1);
    let scenario = c::scenario(2, 8);
    assert_eq!((scenario.level, scenario.games, scenario.seed), (2, 8, None));
}

#[test]
fn a_watch_shows_what_was_noted_last() {
    let mut w = watch(0);
    update_watch(&mut w, 12, 3.5f64.to_bits());
    assert_eq!(read_watch(&w), (12, 3.5f64.to_bits()));
    watch_hook(&mut w, 13, Some(4.5f64.to_bits()));
    assert_eq!(read_watch(&w), (13, 4.5f64.to_bits()));
    watch_hook(&mut w, 14, None);
    assert_eq!(read_watch(&w), (14, 0));
}

#[test]
fn footers_are_at_least_eight_wide() {
    assert_eq!(draw_footer(5, &watch(7)), "|--------|\n|5      7|\n");
    assert_eq!(draw_footer(1234, &watch(567)), "|--------|\n|1234 567|\n");
}

#[test]
fn footers_grow_with_their_numbers() {
    assert_eq!(draw_footer(1234567, &watch(890)), "|-----------|\n|1234567 890|\n");
    let out = draw_footer(u64::MAX, &watch(400));
    let lines: Vec<&str> = out.lines().collect();
    assert_eq!(lines[0].len(), lines[1].len());
}

#[test]
fn mario_footers_name_the_generation() {
    assert_eq!(draw_mario_footer(40, &watch(3)), "|--------|\n|40 gen 3|\n");
    assert_eq!(draw_mario_footer(3161, &watch(120)), "|------------|\n|3161 gen 120|\n");
    assert_eq!(draw_mario_footer(0, &watch(3)), "|--------|\n|0  gen 3|\n");
}

#[test]
fn actions_are_combined() {
    assert_eq!(c::tick_input(&bits(&[0.0; 6])), 0);
    assert_eq!(c::tick_input(&bits(&[1.0; 6])), 0x3f);
    assert_eq!(c::tick_input(&bits(&[0.5, 0.0, 0.0, 0.0, 0.0, 0.0])), 0x10);
    assert_eq!(c::tick_input(&bits(&[0.0, 0.5, 0.0, 0.0, 0.0, 0.0])), 0x20);
    assert_eq!(c::tick_input(&bits(&[0.0, 0.0, 0.5, 0.0, 0.0, 0.0])), 0x04);
    assert_eq!(c::tick_input(&bits(&[0.0, 0.0, 0.0, 0.5, 0.0, 0.0])), 0x08);
    assert_eq!(c::tick_input(&bits(&[0.0, 0.0, 0.0, 0.0, 0.5, 0.0])), 0x02);
    assert_eq!(c::tick_input(&bits(&[0.0, 0.0, 0.0, 0.0, 0.0, 0.5])), 0x01);
    assert_eq!(c::tick_input(&bits(&[0.9, 0.4, f64::NAN, 2.0])), 0x18);
    assert_eq!(c::tick_input(&[]), 0);
    assert_eq!(c::tick_input(&bits(&[0.0, 0.0, 0.0, 0.0, 0.0, 0.0, 1.0])), 0);
}

#[test]
fn the_engine_ends_the_game() {
    assert!(c::is_over(2));
    assert!(!c::is_over(0));
    assert!(!c::is_over(1));
}

#[test]
fn points_count_before_pieces() {
    assert_eq!(c::score(0, 0), 0);
    assert_eq!(c::score(3, 20), 788);
    assert!(c::score(3, 255) < c::score(4, 0));
    assert_eq!(c::score(-1, 5), -251);
}

fn tetris_ram() -> Vec<u8> {
    let mut ram = vec![0u8; 0x800];
    for cell in &mut ram[0x400..0x400 + BOARD_SIZE] {
        *cell = 0xef;
    }
    ram[nes::ID] = 0xff;
    ram
}

#[test]
fn a_free_board_is_all_zero() {
    let ram = tetris_ram();
    assert!(nes::can_sense(&ram));
    assert_eq!(nes::sense_board(&ram), vec![0; 200]);
}

#[test]
fn placed_pieces_are_one() {
    let mut ram = tetris_ram();
    ram[0x400] = 0x7b;
    ram[0x400 + 199] = 0;
    let board = nes::sense_board(&ram);
    assert_eq!(board[0], 1);
    assert_eq!(board[199], 1);
    assert_eq!(board.iter().map(|v| *v as i32).sum::<i32>(), 2);
}

#[test]
fn the_falling_piece_is_minus_one() {
    let mut ram = tetris_ram();
    ram[nes::ID] = 2;
    ram[nes::X] = 5;
    ram[nes::Y] = 0;
    let board = nes::sense_board(&ram);
    let covered: Vec<usize> = (0..200).filter(|i| board[*i] == -1).collect();
    assert_eq!(covered, [4, 5, 6, 15]);
}

#[test]
fn the_falling_piece_hides_placed_ones() {
    let mut ram = tetris_ram();
    ram[nes::ID] = 10;
    ram[nes::X] = 5;
    ram[nes::Y] = 10;
    for cell in &mut ram[0x400..0x400 + BOARD_SIZE] {
        *cell = 0x7c;
    }
    let board = nes::sense_board(&ram);
    let covered: Vec<usize> = (0..200).filter(|i| board[*i] == -1).collect();
    assert_eq!(covered, [104, 105, 114, 115]);
    assert!((0..200).all(|i| board[i] == -1 || board[i] == 1));
}

#[test]
fn parts_above_the_board_are_not_seen() {
    let mut ram = tetris_ram();
    ram[nes::ID] = 17;
    ram[nes::X] = 5;
    ram[nes::Y] = 0;
    let board = nes::sense_board(&ram);
    let covered: Vec<usize> = (0..200).filter(|i| board[*i] == -1).collect();
    assert_eq!(covered, [5, 15]);
    ram[nes::Y] = 19;
    let board = nes::sense_board(&ram);
    let covered: Vec<usize> = (0..200).filter(|i| board[*i] == -1).collect();
    assert_eq!(covered, [175, 185, 195]);
}

#[test]
fn pieces_that_do_not_fit_in_a_byte_cannot_be_sensed() {
    let mut ram = tetris_ram();
    ram[nes::ID] = 0;
    ram[nes::Y] = 251;
    assert!(nes::can_sense(&ram));
    assert_eq!(nes::sense_board(&ram), vec![0; 200]);
    ram[nes::Y] = 252;
    assert!(!nes::can_sense(&ram));
    ram[nes::ID] = 19;
    assert!(nes::can_sense(&ram));
    assert!(!nes::can_sense(&ram[..0x400 + 199]));
}

#[test]
fn scores_are_read_lowest_byte_first() {
    let mut ram = tetris_ram();
    ram[nes::SCORE_1] = 0x11;
    ram[nes::SCORE_2] = 0x22;
    ram[nes::SCORE_3] = 0x33;
    ram[nes::PIECE_COUNT] = 0x44;
    assert_eq!(nes::nes_score(&ram), 0x33221144);
    let mut more = tetris_ram();
    more[nes::SCORE_1] = 1;
    let mut pieces = tetris_ram();
    pieces[nes::PIECE_COUNT] = 255;
    assert!(nes::nes_score(&more) > nes::nes_score(&pieces));
}

#[test]
fn networks_leave_select_and_start_alone() {
    let mut buttons = [false; 8];
    nes::press_buttons(&mut buttons, &bits(&[1.0; 8]));
    assert_eq!(buttons, [true, true, false, false, true, true, true, true]);
    let mut buttons = [true; 8];
    nes::press_buttons(&mut buttons, &bits(&[0.0; 8]));
    assert_eq!(buttons, [false, false, true, true, false, false, false, false]);
    let mut buttons = [false; 8];
    nes::press_buttons(&mut buttons, &bits(&[0.49, 0.5]));
    assert_eq!(buttons, [false, true, false, false, false, false, false, false]);
}

#[test]
fn the_console_tells_that_the_game_is_over() {
    let mut ram = tetris_ram();
    assert!(!nes::is_over(&ram));
    ram[nes::GAME_OVER] = 1;
    assert!(nes::is_over(&ram));
}

fn boot(seed: u16, level: u8, mut screens: Vec<u8>) -> (Vec<ConsoleAction>, Vec<u8>) {
    let mut ram = vec![0u8; 0x800];
    let mut path = nes::Boot::new(seed, level);
    let mut actions = vec![];
    let mut frames = 0;
    screens.reverse();
    loop {
        let action = path.advance(&ram);
        actions.push(action);
        match action {
            ConsoleAction::Frame => {
                frames += 1;
                if frames == 2 {
                    ram[0xc3] = 1;
                } else if frames > 3 {
                    if let Some(screen) = screens.pop() {
                        ram[nes::GAME_MODE] = screen;
                    }
                }
            }
            ConsoleAction::Poke { address, value } => ram[address] = value,
            ConsoleAction::PressStart | ConsoleAction::ReleaseStart => {}
            ConsoleAction::Ready => return (actions, ram),
        }
    }
}

#[test]
fn a_console_is_led_to_the_game() {
    let (actions, ram) = boot(0x1234, 25, vec![1, 2, 4]);
    assert_eq!(
        actions,
        [
            Frame,
            Frame,
            Poke { address: 0xc3, value: 0 },
            Frame,
            Frame,
            PressStart,
            Frame,
            ReleaseStart,
            Frame,
            Poke { address: 0x17, value: 0x34 },
            Poke { address: 0x18, value: 0x12 },
            Poke { address: 0x64, value: 19 },
            Ready,
        ]
    );
    assert_eq!(ram[0xc3], 0);
    assert_eq!(u16::from_le_bytes([ram[0x17], ram[0x18]]), 0x1234);
}

#[test]
fn low_levels_are_kept() {
    let (actions, ram) = boot(0, 5, vec![4]);
    assert_eq!(ram[nes::LEVEL], 5);
    assert_eq!((ram[nes::SEED_L], ram[nes::SEED_R]), (0, 0));
    assert!(!actions.contains(&ConsoleAction::PressStart));
}

fn mario_ram() -> Vec<u8> {
    let mut ram = vec![0u8; 0x800];
    ram[0x772] = 3;
    ram
}

fn at(page: u8, column: u8) -> Vec<u8> {
    let mut ram = mario_ram();
    ram[0x71a] = page;
    ram[0x71c] = column;
    ram
}

#[test]
fn progress_counts_pages_and_columns() {
    assert_eq!(mario_progress(&at(0, 0)), 0);
    assert_eq!(mario_progress(&at(2, 40)), 552);
    assert_eq!(mario_progress(&at(255, 255)), 65535);
}

#[test]
fn networks_see_mario_and_his_enemies() {
    let mut ram = mario_ram();
    ram[0xce] = 40;
    ram[0xb5] = 200;
    ram[0x9f] = 0xf0;
    ram[0x9d] = 5;
    ram[0x756] = 2;
    ram[0x1c] = 9;
    ram[0x0f] = 6;
    ram[0x87] = 30;
    ram[0xcf] = 255;
    ram[0x0f + 4] = 1;
    ram[0x87 + 4] = 90;
    ram[0xcf + 4] = 0;
    ram[0x87 + 1] = 77;
    let sense = fill_sense(&ram);
    let seen: Vec<(i32, i32)> = sense.iter().map(|r| (r.num, r.den)).collect();
    let mut expected = vec![(40, 255), (200, 255), (-16, 64), (5, 64), (2, 2), (1, 1)];
    expected.extend([(1, 1), (-10, 255), (55, 255)]);
    expected.extend([(0, 1); 9]);
    expected.extend([(1, 1), (50, 255), (-200, 255)]);
    assert_eq!(seen, expected);
    assert!(sense[6..].iter().all(|r| r.num.abs() <= r.den));
}

#[test]
fn velocities_have_a_sign() {
    for b in 0..=255u8 {
        let mut ram = mario_ram();
        ram[0x9f] = b;
        assert_eq!(fill_sense(&ram)[2].num, i32::from(b as i8));
    }
}

#[test]
fn the_way_to_the_level_is_fixed() {
    let actions: Vec<ConsoleAction> = (0..260).map(boot_action).collect();
    let frames = actions.iter().filter(|a| **a == ConsoleAction::Frame).count();
    assert_eq!(frames, 256);
    assert_eq!(actions[34], ConsoleAction::Frame);
    assert_eq!(actions[35], ConsoleAction::PressStart);
    assert_eq!(actions[36], ConsoleAction::Frame);
    assert_eq!(actions[37], ConsoleAction::ReleaseStart);
    assert_eq!(actions[257], ConsoleAction::Frame);
    assert_eq!(actions[258], ConsoleAction::Ready);
}

#[test]
fn four_outputs_play_four_buttons() {
    let mut buttons = [false; 8];
    apply_outputs(&mut buttons, &bits(&[0.5, 0.2, 0.0, 3.0]));
    assert_eq!(buttons, [true, false, false, false, false, false, false, true]);
    let mut buttons = [true; 8];
    apply_outputs(&mut buttons, &bits(&[0.0, 0.0, 1.0, f64::NAN, 1.0]));
    assert_eq!(buttons, [false, false, true, true, true, true, true, false]);
}

#[test]
fn a_mario_scenario_has_its_dimensions() {
    let scenario = MarioScenario::new(1800);
    assert_eq!(scenario.max_frames, 1800);
    assert_eq!(scenario.io(), (21, 4));
    let episode = scenario.eval(&at(1, 4));
    assert_eq!(episode, Episode::new(1800, &at(1, 4)));
    assert_eq!(episode.last_progress, 260);
}

#[test]
fn an_episode_scores_the_furthest_progress() {
    let mut episode = Episode::new(100, &at(0, 40));
    for column in [41, 45, 43, 44, 50, 10] {
        assert!(episode.is_on());
        episode.record(&at(0, column));
    }
    assert_eq!(episode.last_progress, 50);
    assert_eq!(episode.stall, 1);
    assert!(episode.is_on());
}

#[test]
fn leaving_the_level_ends_an_episode() {
    let mut episode = Episode::new(100, &at(0, 40));
    let mut ram = at(9, 0);
    ram[0x772] = 1;
    episode.record(&ram);
    assert!(!episode.is_on());
    assert_eq!(episode.last_progress, 40);
}

#[test]
fn standing_still_ends_an_episode() {
    let mut episode = Episode::new(1000, &at(0, 40));
    for _ in 0..59 {
        episode.record(&at(0, 40));
        assert!(episode.is_on());
    }
    episode.record(&at(0, 39));
    assert!(!episode.is_on());
    assert_eq!(episode.last_progress, 40);
}

#[test]
fn progress_starts_the_count_again() {
    let mut episode = Episode::new(1000, &at(0, 40));
    for i in 0..119 {
        episode.record(&at(0, if i < 59 { 40 } else { 41 }));
        assert!(episode.is_on());
    }
    episode.record(&at(0, 41));
    assert!(!episode.is_on());
}

#[test]
fn an_episode_takes_no_more_frames_than_it_was_given() {
    let mut episode = Episode::new(3, &at(0, 0));
    for column in 1..=3 {
        assert!(episode.is_on());
        episode.record(&at(0, column));
    }
    assert!(!episode.is_on());
    assert_eq!(episode.last_progress, 3);
    assert!(!Episode::new(0, &at(0, 0)).is_on());
}

#[test]
fn pixels_put_red_on_top() {
    let mut pixels = vec![0u32; 2];
    copy_pixels(&[0x10, 0x20, 0x30, 0xff, 0xff, 0x00, 0x80, 0x00], &mut pixels);
    assert_eq!(pixels, [0x302010, 0x8000ff]);
    copy_pixels(&[], &mut vec![]);
}

fn is_shared<T: Send + Sync>(_: &T) -> bool {
    true
}

fn is_shareable<T: Shareable>(_: &T) -> bool {
    true
}

#[test]
fn scenarios_are_shared_whatever_their_engine() {
    let scenario = TetrisScenario::<c::CEngine>::new(3, 2, Some(9));
    assert!(is_shared(&scenario));
    assert!(is_shareable(&scenario));
    let scenario = TetrisScenario::<Rc<u8>> { level: 3, games: 2, seed: None, engine: PhantomData };
    assert!(is_shared(&scenario));
    assert!(is_shareable(&scenario));
    let scenario =
        TetrisScenario::<Cell<u8>> { level: 3, games: 2, seed: None, engine: PhantomData };
    assert!(is_shared(&scenario));
    assert!(is_shareable(&scenario));
}

#[test]
fn games_begin_with_their_seeds() {
    let mut counter = 0;
    let opening = c::scenario(4, 1).next_game(&mut counter);
    assert_eq!(opening, c::Opening { seed: 0xf0d6, level: 4 });
    assert_eq!(counter, 1);
    let boot = nes::scenario(77, 6).next_game(&mut counter);
    assert_eq!((boot.seed, boot.level, boot.phase), (77, 6, Phase::Starting));
    assert_eq!(counter, 1);
    let boot = nes::scenario(0, 6).next_game(&mut counter);
    assert_eq!(boot.seed, 48817);
}

#[test]
fn a_new_watch_shows_zero() {
    assert_eq!(read_watch(&Watch::new()), (0, 0.0f64.to_bits()));
}

#[test]
fn watches_keep_every_bit() {
    let mut w = Watch::new();
    for bits in [f64::NAN.to_bits(), 0x7ff0_0000_0000_0001, (-0.0f64).to_bits(), u64::MAX] {
        update_watch(&mut w, 1, bits);
        assert_eq!(read_watch(&w), (1, bits));
        assert_eq!(read_watch(&w), (1, bits));
    }
}

#[test]
fn all_buttons_are_released() {
    let mut buttons = [true; 8];
    release_buttons(&mut buttons);
    assert_eq!(buttons, [false; 8]);
}

#[test]
fn a_console_is_an_engine() {
    let mut ram = tetris_ram();
    ram[0x400 + 7] = 0;
    ram[nes::ID] = 10;
    ram[nes::X] = 5;
    ram[nes::Y] = 10;
    assert!(nes::NesEngine::can_sense(&ram));
    let board = nes::NesEngine::sense(&ram);
    let numbers: Vec<f64> = board.into_iter().map(f64::from_bits).collect();
    assert_eq!(numbers.len(), 200);
    assert_eq!((numbers[0], numbers[7], numbers[104]), (0.0, 1.0, -1.0));
    assert_eq!(numbers.iter().filter(|x| **x == -1.0).count(), 4);
    let input = nes::NesEngine::tick(&bits(&[0.5, 0.0, 1.0, 1.0, 0.0, 0.7]));
    assert_eq!(input, [true, false, false, false, false, true, false, false]);
    assert!(!nes::NesEngine::is_over(&ram));
    ram[nes::SCORE_1] = 2;
    assert!(nes::NesEngine::can_score(&ram));
    assert_eq!(nes::NesEngine::score(&ram), 512);
    assert!(!nes::NesEngine::can_score(&vec![0; 0x55]));
    ram[nes::Y] = 255;
    assert!(!nes::NesEngine::can_sense(&ram));
}

#[test]
fn the_small_engine_is_an_engine() {
    let mut reading = c::Reading { squares: [0; 200], status: 1, points: 3, pieces: 20 };
    reading.squares[9] = 1.0f64.to_bits();
    assert!(c::CEngine::can_sense(&reading));
    assert_eq!(c::CEngine::sense(&reading), reading.squares);
    assert_eq!(c::CEngine::tick(&bits(&[1.0, 0.0, 1.0])), 0x14);
    assert!(!c::CEngine::is_over(&reading));
    reading.status = 2;
    assert!(c::CEngine::is_over(&reading));
    assert!(c::CEngine::can_score(&reading));
    assert_eq!(c::CEngine::score(&reading), 788);
    reading.points = i64::MAX;
    assert!(!c::CEngine::can_score(&reading));
    reading.points = i64::MAX / 256;
    reading.pieces = 256;
    assert!(!c::CEngine::can_score(&reading));
}

/// Steps through an evaluation in which game `i` takes `ticks[i]` ticks.
fn trace(scenario: &TetrisScenario<c::CEngine>, ticks: &[usize], counter: &mut u64) -> String {
    let mut evaluation = scenario.eval();
    let mut over = false;
    let mut played = 0;
    let mut game = 0;
    let mut out = String::new();
    loop {
        match scenario.step(&mut evaluation, over, counter) {
            Next::Begin(opening) => out.push_str(&format!("[{}", opening.seed)),
            Next::Tick => {
                played += 1;
                over = played == ticks[game];
                out.push('.');
            }
            Next::Score => {
                game += 1;
                played = 0;
                out.push(']');
            }
            Next::End => return out,
        }
    }
}

#[test]
fn an_evaluation_plays_every_game_to_its_end() {
    let mut counter = 0;
    let scenario = c::scenario(0, 3);
    assert_eq!(trace(&scenario, &[2, 1, 4], &mut counter)[..8], *"[61654..");
    assert_eq!(counter, 3);
    let scenario = TetrisScenario::<c::CEngine>::new(0, 3, Some(7));
    assert_eq!(trace(&scenario, &[2, 1, 4], &mut counter), "[7..][7.][7....]");
    assert_eq!(counter, 3);
}

#[test]
fn an_evaluation_of_no_games_ends_at_once() {
    let mut counter = 5;
    assert_eq!(trace(&c::scenario(0, 0), &[], &mut counter), "");
    assert_eq!(counter, 5);
}

#[test]
fn a_first_tick_is_always_played() {
    let scenario = TetrisScenario::<c::CEngine>::new(0, 1, Some(7));
    let mut evaluation = scenario.eval();
    assert_eq!(evaluation, Evaluation { games_left: 1, stage: Stage::Between });
    assert!(matches!(scenario.step(&mut evaluation, true, &mut 0), Next::Begin(_)));
    assert!(matches!(scenario.step(&mut evaluation, true, &mut 0), Next::Tick));
    assert!(matches!(scenario.step(&mut evaluation, true, &mut 0), Next::Score));
    assert!(matches!(scenario.step(&mut evaluation, true, &mut 0), Next::End));
    assert!(matches!(scenario.step(&mut evaluation, false, &mut 0), Next::End));
}
