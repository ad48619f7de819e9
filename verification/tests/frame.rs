use eevee_eval::random::WyRng;
use eevee_eval::{draw_output, render_frame, report_generation};
use rand::RngCore;

const BLOCKS: [char; 8] = ['▏', '▎', '▍', '▌', '▋', '▊', '▉', '█'];

fn bits(values: &[f64]) -> Vec<u64> {
    values.iter().map(|v| v.to_bits()).collect()
}

fn block_of(v: f64) -> char {
    BLOCKS[(v.abs().clamp(0.0, 1.0) * 7.0).round() as usize]
}

fn single(v: f64) -> String {
    render_frame(&[v.to_bits()], 1, false)
}

#[test]
fn blocks_widen_in_seven_steps() {
    for k in 0..=7 {
        let v = k as f64 / 7.0;
        assert_eq!(single(v), format!("\x1b[100m\x1b[30m{}\x1b[0m\n", BLOCKS[k]));
    }
}

#[test]
fn blocks_change_where_rounding_does() {
    for k in 1..=7u32 {
        let tie = f64::from(2 * k - 1) / 14.0;
        for offset in -4..=4i64 {
            let v = f64::from_bits((tie.to_bits() as i64 + offset) as u64);
            assert!(single(v).contains(block_of(v)), "{v:?}");
            assert!(single(-v).contains(block_of(v)), "-{v:?}");
        }
    }
}

#[test]
fn blocks_follow_arbitrary_numbers() {
    let mut rng = WyRng::seeded(11);
    for _ in 0..20_000 {
        let v = f64::from_bits(rng.next_u64());
        let u = (rng.next_u64() >> 11) as f64 / (1u64 << 53) as f64;
        for x in [v, u, -u, 1.5 * u] {
            let ink = if x < 0.0 { "97" } else { "30" };
            let expected = format!("\x1b[100m\x1b[{}m{}\x1b[0m\n", ink, block_of(x));
            assert_eq!(single(x), expected, "{x:?}");
        }
    }
}

#[test]
fn odd_numbers_have_blocks() {
    assert_eq!(single(f64::NAN), "\x1b[100m\x1b[30m▏\x1b[0m\n");
    assert_eq!(single(-0.0), "\x1b[100m\x1b[30m▏\x1b[0m\n");
    assert_eq!(single(f64::INFINITY), "\x1b[100m\x1b[30m█\x1b[0m\n");
    assert_eq!(single(f64::NEG_INFINITY), "\x1b[100m\x1b[97m█\x1b[0m\n");
}

#[test]
fn rows_break_at_the_width() {
    let out = render_frame(&bits(&[0.0, 1.0, -1.0]), 2, false);
    assert_eq!(
        out,
        "\x1b[100m\x1b[30m▏\x1b[100m\x1b[30m█\x1b[0m\n\x1b[100m\x1b[97m█\x1b[0m\n"
    );
}

#[test]
fn cells_can_be_spaced() {
    let out = render_frame(&bits(&[0.0, 0.5, 1.0, 0.0]), 3, true);
    assert_eq!(
        out,
        "\x1b[100m\x1b[30m▏\x1b[0m \x1b[100m\x1b[30m▋\x1b[0m \x1b[100m\x1b[30m█\x1b[0m\n\
         \x1b[100m\x1b[30m▏\x1b[0m\n"
    );
}

#[test]
fn an_empty_frame_is_a_line_break() {
    assert_eq!(render_frame(&[], 0, true), "\x1b[0m\n");
    assert_eq!(draw_output(&[], &[]), "\x1b[0m\n\n");
}

fn without_escapes(text: &str) -> Vec<char> {
    let mut shown = vec![];
    let mut escaped = false;
    for c in text.chars() {
        if escaped {
            escaped = c != 'm';
        } else if c == '\x1b' {
            escaped = true;
        } else {
            shown.push(c);
        }
    }
    shown
}

#[test]
fn labels_stand_below_their_blocks() {
    let labels = ['a', 'b', '<', '>'];
    let values = [0.0, 0.25, -0.75, 1.0];
    let out = draw_output(&bits(&values), &labels);
    assert!(out.ends_with("\x1b[0m\na b < >\n"));
    let shown = without_escapes(&out);
    let rows: Vec<&[char]> = shown.split(|c| *c == '\n').collect();
    for i in 0..4 {
        assert_eq!(rows[0][2 * i], block_of(values[i]));
        assert_eq!(rows[1][2 * i], labels[i]);
    }
}

#[test]
fn reports_name_everything() {
    assert_eq!(
        report_generation(10, "0.625", &[50, 30, 0, 20], Some(11), Some(3)),
        "gen 10 best: 0.625  species: 4  [50%, 30%, 20%]  hall 11/64  stale: 3"
    );
}

#[test]
fn reports_leave_out_what_is_not_there() {
    assert_eq!(
        report_generation(0, "-inf", &[], None, None),
        "gen 0 best: -inf  species: 0  []"
    );
    assert_eq!(
        report_generation(1, "1.000", &[0, 0], Some(0), Some(0)),
        "gen 1 best: 1.000  species: 2  []  hall 0/64"
    );
    assert_eq!(
        report_generation(400, "12.500", &[0, 7, 0], None, Some(1)),
        "gen 400 best: 12.500  species: 3  [100%]  stale: 1"
    );
}

#[test]
fn shares_are_rounded_down() {
    assert_eq!(
        report_generation(5, "1", &[1, 1, 1], None, None),
        "gen 5 best: 1  species: 3  [33%, 33%, 33%]"
    );
}
