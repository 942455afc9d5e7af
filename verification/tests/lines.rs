use keyd_live_graph::number::{keep_digits, parse_u64};
use keyd_live_graph::text::{split_fields, strip_prefixes, to_lower, trim, white_space};
use keyd_live_graph::{gap_from_args, parse_line, Event, Kind};

fn chars(s: &str) -> Vec<char> {
    s.chars().collect()
}

fn text(v: &Vec<char>) -> String {
    v.iter().collect()
}

fn parts(event: Option<Event>) -> Option<(u64, String, Kind)> {
    event.map(|e| (e.delta_ms, e.key, e.kind))
}

fn args(list: &[&str]) -> Vec<String> {
    list.iter().map(|s| s.to_string()).collect()
}

#[test]
fn expected_line_is_parsed() {
    assert_eq!(
        parts(parse_line("+321 ms\tkeyd virtual keyboard\t0fac:0ade\ts down")),
        Some((321, "s".to_string(), Kind::Down))
    );
    assert_eq!(
        parts(parse_line("+0 ms\tmouse\tid\tleftmouse up")),
        Some((0, "leftmouse".to_string(), Kind::Up))
    );
}

#[test]
fn key_may_hold_spaces() {
    assert_eq!(
        parts(parse_line("+7 ms\td\ti\tvolume up down")),
        Some((7, "volume up".to_string(), Kind::Down))
    );
    assert_eq!(parts(parse_line("+7 ms\td\ti\t up")), Some((7, String::new(), Kind::Up)));
}

#[test]
fn surrounding_white_space_is_trimmed() {
    assert_eq!(
        parts(parse_line("+7 ms\td\ti\t \u{3000}a\u{a0} up\r")),
        Some((7, "a".to_string(), Kind::Up))
    );
    assert!(parse_line("+7 ms\td\ti\ta up ").is_none());
}

#[test]
fn all_digits_of_the_first_column_count() {
    assert_eq!(parts(parse_line("1a2b3\t\t\tq up")), Some((123, "q".to_string(), Kind::Up)));
    assert_eq!(
        parts(parse_line("+18446744073709551615\t\t\tq up")),
        Some((u64::MAX, "q".to_string(), Kind::Up))
    );
    assert!(parse_line("+18446744073709551616\t\t\tq up").is_none());
    assert!(parse_line("ms\t\t\tq up").is_none());
}

#[test]
fn further_columns_are_ignored() {
    assert_eq!(parts(parse_line("1\t\t\tq up\tmore down")), Some((1, "q".to_string(), Kind::Up)));
}

#[test]
fn malformed_lines_are_refused() {
    assert!(parse_line("").is_none());
    assert!(parse_line("+1 ms\td\ti").is_none());
    assert!(parse_line("+1 ms\td\ti\tdown").is_none());
    assert!(parse_line("+1 ms\td\ti\ta held").is_none());
    assert!(parse_line("+1 ms\td\ti\ta Down").is_none());
}

#[test]
fn white_space_is_that_of_unicode() {
    for code in 0..=0x10ffff_u32 {
        if let Some(c) = char::from_u32(code) {
            assert_eq!(white_space(c), c.is_whitespace(), "{:x}", code);
        }
    }
}

#[test]
fn text_operations_agree_with_std() {
    for s in ["", " ", "a", "\t a b \u{2003}", "\u{85}x", "KEY_KEY_A", "Key_A", "BTN_\u{c4}Z"] {
        assert_eq!(text(&trim(&chars(s))), s.trim());
        assert_eq!(
            text(&strip_prefixes(&chars(s), &chars("KEY_"))),
            s.trim_start_matches("KEY_")
        );
        assert_eq!(text(&to_lower(&chars(s))), s.to_ascii_lowercase());
        let fields: Vec<String> = split_fields(&chars(s), ' ').iter().map(text).collect();
        let expected: Vec<String> = s.split(' ').map(|f| f.to_string()).collect();
        assert_eq!(fields, expected);
    }
}

#[test]
fn numbers_agree_with_std() {
    for s in [
        "", "+", "-", "-1", "+7", "++7", "007", "12a", " 1", "1 ", "1_0", "18446744073709551615",
        "18446744073709551616", "00000000000000000000000000042", "99999999999999999999999",
    ] {
        assert_eq!(parse_u64(&chars(s)), s.parse::<u64>().ok(), "{:?}", s);
    }
    assert_eq!(text(&keep_digits(&chars("+3 2\u{663}1 ms"))), "321");
}

#[test]
fn gap_defaults_to_a_second() {
    assert_eq!(gap_from_args(&args(&[])), 1000);
    assert_eq!(gap_from_args(&args(&["--verbose", "250"])), 1000);
}

#[test]
fn gap_is_set_by_either_flag() {
    assert_eq!(gap_from_args(&args(&["--gap-ms", "250"])), 250);
    assert_eq!(gap_from_args(&args(&["x", "-g", "+7", "y"])), 7);
    assert_eq!(gap_from_args(&args(&["-g", "1", "--gap-ms", "2"])), 2);
}

#[test]
fn bad_gap_is_ignored() {
    assert_eq!(gap_from_args(&args(&["-g"])), 1000);
    assert_eq!(gap_from_args(&args(&["-g", "fast"])), 1000);
    assert_eq!(gap_from_args(&args(&["-g", "3", "-g", "-1"])), 3);
    assert_eq!(gap_from_args(&args(&["-g", "-g", "5"])), 1000);
}
