use textutils::number::{parse_digits, parse_signed, parse_unsigned, parse_unsigned_in};
use textutils::text::{
    chars_of, content_len, decimal_string, is_whitespace, measure_lines, pad_center, pad_left,
    pad_right, push_spaces, read_valid_lines, split_lines, string_of, string_of_range,
};

fn chars(text: &str) -> Vec<char> {
    text.chars().collect()
}

#[test]
fn white_space_is_the_unicode_property() {
    let mut c = 0u32;
    while c <= 0x10FFFF {
        if let Some(ch) = char::from_u32(c) {
            assert_eq!(is_whitespace(ch), ch.is_whitespace(), "U+{:04X}", c);
        }
        c += 1;
    }
}

#[test]
fn chars_and_strings_convert_both_ways() {
    for text in ["", "a", "héllo wörld", "日本語\n", "\t x\r\n"] {
        assert_eq!(chars_of(text), chars(text));
        assert_eq!(string_of(&chars(text)), text);
    }
    let all = chars("héllo");
    assert_eq!(string_of_range(&all, 1, 4), "éll");
    assert_eq!(string_of_range(&all, 2, 2), "");
    assert_eq!(string_of_range(&all, 0, 5), "héllo");
}

#[test]
fn decimal_numerals() {
    for n in [0u128, 1, 9, 10, 11, 99, 100, 101, 12345, 1_000_000, u64::MAX as u128, u128::MAX] {
        assert_eq!(decimal_string(n), n.to_string());
    }
    assert_eq!(decimal_string(7), "7");
    assert_eq!(decimal_string(2024), "2024");
}

#[test]
fn padding_follows_the_format_widths() {
    for text in ["", "a", "ab", "abc", "abcde", "é", "日本"] {
        for width in 0..8usize {
            assert_eq!(pad_left(text, width), format!("{:>w$}", text, w = width));
            assert_eq!(pad_right(text, width), format!("{:<w$}", text, w = width));
            assert_eq!(pad_center(text, width), format!("{:^w$}", text, w = width));
        }
    }
    assert_eq!(pad_left("42", 6), "    42");
    assert_eq!(pad_right("42", 6), "42    ");
    assert_eq!(pad_center("42", 7), "  42   ");
    let mut out = "x".to_string();
    push_spaces(&mut out, 3);
    assert_eq!(out, "x   ");
    push_spaces(&mut out, 0);
    assert_eq!(out, "x   ");
}

#[test]
fn lines_keep_their_line_feeds() {
    for text in ["", "a", "a\n", "a\nb", "a\nb\n", "\n", "\n\n", "a\r\nb\r\n", "x\n\ny"] {
        let expected: Vec<String> = text.split_inclusive('\n').map(|s| s.to_string()).collect();
        assert_eq!(split_lines(text), expected, "{:?}", text);
    }
    assert_eq!(split_lines("one\ntwo"), vec!["one\n".to_string(), "two".to_string()]);
}

#[test]
fn line_ends_are_taken_off_as_lines_does() {
    for line in ["", "a", "a\n", "a\r\n", "a\r", "\n", "\r\n", "\r", "a\n\r", "a\r\r\n"] {
        let all = chars(line);
        let n = content_len(&all);
        let got: String = all[..n].iter().collect();
        let mut expected = line.to_string();
        if expected.ends_with('\n') {
            expected.pop();
            if expected.ends_with('\r') {
                expected.pop();
            }
        }
        assert_eq!(got, expected, "{:?}", line);
    }
}

#[test]
fn first_lines_are_measured_in_bytes() {
    assert_eq!(measure_lines(b"a\nbb\nccc", 0), 0);
    assert_eq!(measure_lines(b"a\nbb\nccc", 1), 2);
    assert_eq!(measure_lines(b"a\nbb\nccc", 2), 5);
    assert_eq!(measure_lines(b"a\nbb\nccc", 3), 8);
    assert_eq!(measure_lines(b"a\nbb\nccc", 9), 8);
    assert_eq!(measure_lines(b"", 3), 0);
    assert_eq!(measure_lines(b"\n\n", 1), 1);
}

#[test]
fn reading_stops_at_the_first_line_that_is_not_text() {
    assert_eq!(read_valid_lines(b"a\nb\n"), ("a\nb\n".to_string(), true));
    assert_eq!(read_valid_lines(b""), ("".to_string(), true));
    assert_eq!(read_valid_lines(b"a\n\xff\nb\n"), ("a\n".to_string(), false));
    assert_eq!(read_valid_lines(b"\xff"), ("".to_string(), false));
    assert_eq!(read_valid_lines("é\nü".as_bytes()), ("é\nü".to_string(), true));
    assert_eq!(read_valid_lines(b"ok\nbad\xc3"), ("ok\n".to_string(), false));
}

#[test]
fn unsigned_numbers_are_read_as_parse_reads_them() {
    let samples = [
        "", "+", "-", "0", "00", "007", "1", "+1", "-1", "++1", "+-1", "12a", "a12", " 1", "1 ",
        "1_000", "٣", "4294967295", "4294967296", "18446744073709551615", "18446744073709551616",
        "99999999999999999999999999", "+0", "1.5", "0x10",
    ];
    for text in samples {
        assert_eq!(parse_unsigned(&chars(text), u64::MAX), text.parse::<u64>().ok(), "{:?}", text);
        assert_eq!(
            parse_unsigned(&chars(text), u32::MAX as u64),
            text.parse::<u32>().ok().map(|v| v as u64),
            "{:?}",
            text
        );
    }
    assert_eq!(parse_unsigned(&chars("12"), 11), None);
    assert_eq!(parse_unsigned(&chars("12"), 12), Some(12));
    assert_eq!(parse_digits(&chars("x123y"), 1, 4, 1000), Some(123));
    assert_eq!(parse_digits(&chars("x123y"), 1, 5, 1000), None);
    assert_eq!(parse_digits(&chars("x123y"), 2, 2, 1000), None);
    assert_eq!(parse_digits(&chars("+5"), 0, 2, 1000), None);
    assert_eq!(parse_unsigned_in(&chars("a+5b"), 1, 3, 1000), Some(5));
    assert_eq!(parse_unsigned_in(&chars("a+5b"), 1, 2, 1000), None);
}

#[test]
fn signed_numbers_are_read_as_parse_reads_them() {
    let samples = [
        "", "+", "-", "0", "-0", "+0", "1", "+1", "-1", "--1", "-+1", "+-1", "2147483647",
        "2147483648", "-2147483648", "-2147483649", "9223372036854775807", "9223372036854775808",
        "-9223372036854775808", "-9223372036854775809", "12a", "- 1", "0012", "-0012",
    ];
    for text in samples {
        assert_eq!(
            parse_signed(&chars(text), i64::MIN, i64::MAX),
            text.parse::<i64>().ok(),
            "{:?}",
            text
        );
        assert_eq!(
            parse_signed(&chars(text), i32::MIN as i64, i32::MAX as i64),
            text.parse::<i32>().ok().map(|v| v as i64),
            "{:?}",
            text
        );
    }
    assert_eq!(parse_signed(&chars("-5"), -4, 10), None);
    assert_eq!(parse_signed(&chars("-4"), -4, 10), Some(-4));
    assert_eq!(parse_signed(&chars("11"), -4, 10), None);
}
