use cnls::token::find_class_name_in_str;

/// The span of the quoted, escaped text of `value`, with the opening quote
/// at `offset`.
fn quoted_span(value: &str, offset: u32) -> (u32, u32) {
    let raw = format!("{value:?}");
    (offset, raw.len() as u32 + offset)
}

fn find(value: &str, offset: u32, cursor: u32) -> Option<String> {
    let (lo, hi) = quoted_span(value, offset);
    find_class_name_in_str(value, lo, hi, cursor)
}

#[test]
fn it_finds_name_at_position() {
    assert_eq!(find("h-10 w-10 test", 2, 13), Some("test".to_owned()));

    assert_eq!(find("h-10 w-10 test", 2, 8), Some("w-10".to_owned()));

    assert_eq!(find(" h-10 w-10 test", 4, 6), Some("h-10".to_owned()));

    assert_eq!(find(" h-10 w-10 \ntest", 8, 21), Some("test".to_owned()));

    assert_eq!(find("short small   tall", 16, 21), Some("short".to_owned()));
}

#[test]
fn it_finds_nothing_at_whitespaces() {
    assert_eq!(find("h-10 w-10 test", 1, 11), None);

    assert_eq!(find("h-10 w-10 ", 1, 11), None);

    assert_eq!(find("h-10 w-10   ", 1, 11), None);

    assert_eq!(find(" h-10 w-10 test", 3, 4), None);

    assert_eq!(find(" h-10 w-10 \n                test", 7, 19), None);
}

#[test]
fn it_finds_nothing_at_empty_str() {
    assert_eq!(find("", 1, 2), None);

    assert_eq!(find("     ", 1, 2), None);
}

#[test]
fn every_offset_inside_a_token_gives_that_token() {
    let value = "alpha  beta\tgamma";
    let lo = 10;
    let hi = lo + value.len() as u32 + 2;
    let expected = [
        (0usize, 4usize, "alpha"),
        (7, 10, "beta"),
        (12, 16, "gamma"),
    ];
    for (first, last, token) in expected {
        for at in first..=last {
            let cursor = lo + 1 + at as u32;
            assert_eq!(
                find_class_name_in_str(value, lo, hi, cursor),
                Some(token.to_owned())
            );
        }
    }
    for at in [5u32, 6, 11] {
        assert_eq!(find_class_name_in_str(value, lo, hi, lo + 1 + at), None);
    }
}

#[test]
fn blank_literals_give_nothing_at_every_offset() {
    for value in ["", " ", "   ", " \t\n\r "] {
        let lo = 3;
        let hi = lo + value.len() as u32 + 2;
        for cursor in lo + 1..hi {
            assert_eq!(find_class_name_in_str(value, lo, hi, cursor), None);
        }
    }
}

#[test]
fn cursor_on_or_outside_the_quotes_gives_nothing() {
    let value = "one two";
    assert_eq!(find_class_name_in_str(value, 5, 14, 5), None);
    assert_eq!(find_class_name_in_str(value, 5, 14, 14), None);
    assert_eq!(find_class_name_in_str(value, 5, 14, 4), None);
    assert_eq!(find_class_name_in_str(value, 5, 14, 20), None);
    assert_eq!(find_class_name_in_str(value, 5, 14, 6), Some("one".to_owned()));
    assert_eq!(find_class_name_in_str(value, 5, 14, 12), Some("two".to_owned()));
    assert_eq!(find_class_name_in_str(value, 5, 14, 13), None);
}

#[test]
fn tokens_keep_bytes_beyond_ascii() {
    let value = "caf\u{e9} na\u{ef}ve";
    let lo = 0;
    let hi = value.len() as u32 + 2;
    assert_eq!(find_class_name_in_str(value, lo, hi, 4), Some("caf\u{e9}".to_owned()));
    assert_eq!(find_class_name_in_str(value, lo, hi, 5), Some("caf\u{e9}".to_owned()));
    assert_eq!(find_class_name_in_str(value, lo, hi, 6), None);
    assert_eq!(find_class_name_in_str(value, lo, hi, 10), Some("na\u{ef}ve".to_owned()));
}

#[test]
fn vertical_tab_is_no_whitespace() {
    let value = "a\u{b}b";
    assert_eq!(find_class_name_in_str(value, 0, 5, 2), Some("a\u{b}b".to_owned()));
}
