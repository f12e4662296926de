use creature_sim::game::text::{append_decimal, char_is_whitespace, collect_chars, next_word};

#[test]
fn whitespace_is_what_std_calls_whitespace() {
    for code in 0u32..=0x10ffff {
        if let Some(c) = char::from_u32(code) {
            assert_eq!(char_is_whitespace(c), c.is_whitespace(), "U+{:04X}", code);
        }
    }
}

#[test]
fn chars_are_collected_in_order() {
    assert_eq!(collect_chars("a\u{e9}z"), vec!['a', '\u{e9}', 'z']);
    assert_eq!(collect_chars(""), Vec::<char>::new());
}

#[test]
fn next_word_finds_each_word_in_turn() {
    let chars = collect_chars("  ab \t cde");
    assert_eq!(next_word(&chars, 0), Some((2, 4)));
    assert_eq!(next_word(&chars, 2), Some((2, 4)));
    assert_eq!(next_word(&chars, 3), Some((3, 4)));
    assert_eq!(next_word(&chars, 4), Some((7, 10)));
    assert_eq!(next_word(&chars, 10), None);
    let blank = collect_chars(" \n ");
    assert_eq!(next_word(&blank, 0), None);
    assert_eq!(next_word(&Vec::new(), 0), None);
}

fn decimal(n: i32) -> String {
    let mut s = String::from("n=");
    append_decimal(&mut s, n);
    s
}

#[test]
fn numbers_are_written_in_decimal() {
    assert_eq!(decimal(0), "n=0");
    assert_eq!(decimal(7), "n=7");
    assert_eq!(decimal(10), "n=10");
    assert_eq!(decimal(480), "n=480");
    assert_eq!(decimal(-1), "n=-1");
    assert_eq!(decimal(-100), "n=-100");
    assert_eq!(decimal(i32::MAX), "n=2147483647");
    assert_eq!(decimal(i32::MIN), "n=-2147483648");
}

#[test]
fn decimal_agrees_with_std_formatting() {
    let mut n: i32 = -2_000_000_000;
    while n < 2_000_000_000 {
        assert_eq!(decimal(n), format!("n={}", n));
        n += 7_654_321;
    }
}
