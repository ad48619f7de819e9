use eevee_eval::text::{decimal_len, is_whitespace, push_decimal, push_repeated, split_words};

#[test]
fn decimals_are_written_out() {
    for n in [0, 1, 9, 10, 11, 99, 100, 101, 12345, 9_999_999_999, u64::MAX - 1, u64::MAX] {
        let mut out = String::from("<");
        push_decimal(&mut out, n);
        assert_eq!(out, format!("<{n}"));
        assert_eq!(decimal_len(n), format!("{n}").len());
    }
}

#[test]
fn repeated_characters_are_appended() {
    let mut out = String::from("a");
    push_repeated(&mut out, '-', 3);
    push_repeated(&mut out, 'x', 0);
    assert_eq!(out, "a---");
}

#[test]
fn white_space_is_what_unicode_says() {
    for n in 0..=0x10ffffu32 {
        if let Some(c) = char::from_u32(n) {
            assert_eq!(is_whitespace(c), c.is_whitespace(), "U+{n:04X}");
        }
    }
}

#[test]
fn words_are_split_at_white_space() {
    let texts = [
        "",
        " ",
        "a",
        " a",
        "a ",
        "--seed 0 --level 3",
        "  --seed\t0\n\n--level\u{a0}3  ",
        "é\u{3000}ß\u{2028}🯰",
        "one",
        "\u{85}\u{1680}x\u{200a}y\u{200b}z",
    ];
    for text in texts {
        let expected: Vec<String> = text.split_whitespace().map(|s| s.to_owned()).collect();
        assert_eq!(split_words(text), expected, "{text:?}");
    }
}

#[test]
fn words_hold_everything_but_white_space() {
    let text = " --games  4 --level\t2 ";
    let list = split_words(text);
    assert_eq!(list, ["--games", "4", "--level", "2"]);
    let joined: String = list.concat();
    let rest: String = text.chars().filter(|c| !c.is_whitespace()).collect();
    assert_eq!(joined, rest);
}
