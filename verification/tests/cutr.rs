use std::ops::Range;
use textutils::text::Input;
use textutils::cutr::{
    all_selections, parse_range, run, select_bytes, select_chars, select_fields, split_fields,
    Config, RangeError,
};

fn expected_bytes(s: &str, ranges: &[Range<usize>]) -> String {
    let mut out = String::new();
    for range in ranges {
        let value: Vec<u8> =
            s.bytes().skip(range.start - 1).take(range.end - range.start + 1).collect();
        out.push_str(&String::from_utf8_lossy(value.as_slice()));
    }
    out
}

fn expected_chars(s: &str, ranges: &[Range<usize>]) -> String {
    let mut out = String::new();
    for range in ranges {
        let value: String =
            s.chars().skip(range.start - 1).take(range.end - range.start + 1).collect();
        out.push_str(&value);
    }
    out
}

fn expected_fields(s: &str, ranges: &[Range<usize>], delim: char) -> String {
    let mut out = String::new();
    for range in ranges {
        let value: String = s
            .split(delim)
            .skip(range.start - 1)
            .take(range.end - range.start + 1)
            .fold(String::from(""), |a, e| format!("{}{}{}", a, e, delim));
        out.push_str(value.trim_end_matches(delim));
    }
    out
}

fn inputs(items: &[(&str, Option<&[u8]>)]) -> Vec<Input> {
    items
        .iter()
        .map(|(name, content)| Input {
            name: name.to_string(),
            content: content.map(|bytes| bytes.to_vec()),
        })
        .collect()
}

fn range(start: usize, end: usize) -> Range<usize> {
    Range { start, end }
}

#[test]
fn ranges_are_one_number_or_two() {
    assert_eq!(parse_range("1"), Ok(range(1, 1)));
    assert_eq!(parse_range("7"), Ok(range(7, 7)));
    assert_eq!(parse_range("1-3"), Ok(range(1, 3)));
    assert_eq!(parse_range("3-3"), Ok(range(3, 3)));
    assert_eq!(parse_range("0"), Ok(range(0, 0)));
    assert_eq!(parse_range("0-2"), Ok(range(0, 2)));
    assert_eq!(parse_range("+1-+3"), Ok(range(1, 3)));
    assert_eq!(parse_range("001-010"), Ok(range(1, 10)));
}

#[test]
fn ranges_that_are_refused() {
    assert_eq!(parse_range("3-1"), Err(RangeError::Descending));
    assert_eq!(parse_range("a"), Err(RangeError::InvalidNumber));
    assert_eq!(parse_range(""), Err(RangeError::InvalidNumber));
    assert_eq!(parse_range("-1"), Err(RangeError::InvalidNumber));
    assert_eq!(parse_range("1-"), Err(RangeError::InvalidNumber));
    assert_eq!(parse_range("-"), Err(RangeError::InvalidNumber));
    assert_eq!(parse_range("1-a"), Err(RangeError::InvalidNumber));
    assert_eq!(parse_range("a-1"), Err(RangeError::InvalidNumber));
    assert_eq!(parse_range("1 - 2"), Err(RangeError::InvalidNumber));
    assert_eq!(parse_range("1-2-3"), Err(RangeError::TooManyParts));
    assert_eq!(parse_range("--"), Err(RangeError::TooManyParts));
    assert_eq!(parse_range("a-b-c"), Err(RangeError::TooManyParts));
    assert_eq!(parse_range("99999999999999999999999"), Err(RangeError::InvalidNumber));
    assert_eq!(parse_range("1-99999999999999999999999"), Err(RangeError::InvalidNumber));
}

#[test]
fn selections_of_bytes_chars_and_fields() {
    assert_eq!(select_chars("abcdef", &vec![range(2, 4)]), "bcd");
    assert_eq!(select_chars("abcdef", &vec![range(1, 1), range(6, 9)]), "af");
    assert_eq!(select_chars("abc", &vec![range(5, 7)]), "");
    assert_eq!(select_chars("héllo", &vec![range(2, 3)]), "él");
    assert_eq!(select_bytes("abcdef", &vec![range(2, 4)]), "bcd");
    assert_eq!(select_bytes("héllo", &vec![range(2, 3)]), "é");
    assert_eq!(select_bytes("héllo", &vec![range(2, 2)]), "\u{fffd}");
    assert_eq!(select_fields("a,b,c,d", &vec![range(2, 3)], ','), "b,c");
    assert_eq!(select_fields("a,b,c,d", &vec![range(1, 1), range(4, 4)], ','), "ad");
    assert_eq!(select_fields("a,b,,", &vec![range(2, 4)], ','), "b");
    assert_eq!(select_fields("no delimiter", &vec![range(1, 1)], ','), "no delimiter");
    assert_eq!(select_fields("a\tb", &vec![range(2, 5)], '\t'), "b");
}

#[test]
fn selections_agree_with_iterator_chains() {
    let lines = ["", "a", "abc,def,ghi", ",,a,,b,,", "héllo,wörld,日本", ",", "x,,", "tab\tsep"];
    let ranges = [
        vec![],
        vec![range(1, 1)],
        vec![range(1, 3)],
        vec![range(2, 2), range(1, 1)],
        vec![range(3, 100)],
        vec![range(4, 5), range(1, 2), range(2, 9)],
        vec![range(100, 200)],
    ];
    for line in lines {
        for list in ranges.iter() {
            assert_eq!(select_bytes(line, list), expected_bytes(line, list), "{:?} {:?}", line, list);
            assert_eq!(select_chars(line, list), expected_chars(line, list), "{:?} {:?}", line, list);
            for delim in [',', '\t', 'é'] {
                assert_eq!(
                    select_fields(line, list, delim),
                    expected_fields(line, list, delim),
                    "{:?} {:?} {:?}",
                    line,
                    list,
                    delim
                );
            }
        }
    }
}

#[test]
fn fields_are_the_parts_between_delimiters() {
    for text in ["", "a", "a,b", ",", ",,", "a,,b,", ",a"] {
        let chars: Vec<char> = text.chars().collect();
        let got: Vec<String> =
            split_fields(&chars, ',').into_iter().map(|f| f.into_iter().collect()).collect();
        let expected: Vec<String> = text.split(',').map(|s| s.to_string()).collect();
        assert_eq!(got, expected, "{:?}", text);
    }
}

#[test]
fn positions_count_from_one() {
    assert!(all_selections(&None));
    assert!(all_selections(&Some(vec![])));
    assert!(all_selections(&Some(vec![range(1, 1), range(2, 5)])));
    assert!(!all_selections(&Some(vec![range(0, 1)])));
    assert!(!all_selections(&Some(vec![range(1, 2), range(3, 2)])));
    let config = Config {
        files: vec![],
        delim: '\t',
        fields: None,
        bytes: Some(vec![range(0, 0)]),
        chars: None,
    };
    assert!(!config.is_valid());
}

#[test]
fn every_line_of_every_input_is_cut() {
    let config = Config {
        files: vec!["a".to_string(), "gone".to_string(), "b".to_string()],
        delim: ',',
        fields: Some(vec![range(2, 2)]),
        bytes: None,
        chars: None,
    };
    assert!(config.is_valid());
    let contents = inputs(&[("a", Some(b"a,b,c\r\nd,e\n")), ("gone", None), ("b", Some(b"x\ny,z"))]);
    assert_eq!(run(&config, &contents), ("b\ne\n\nz\n".to_string(), true));
    let broken = inputs(&[("a", Some(b"a,b\n\xff,c\nd,e\n")), ("b", Some(b"f,g\n"))]);
    assert_eq!(run(&config, &broken), ("b\n".to_string(), false));
    let both = Config {
        files: vec!["a".to_string()],
        delim: ',',
        fields: Some(vec![range(1, 1)]),
        bytes: Some(vec![range(1, 2)]),
        chars: Some(vec![range(3, 3)]),
    };
    assert_eq!(run(&both, &inputs(&[("a", Some(b"ab,cd\n"))])), ("ab\n,\nab\n".to_string(), true));
}
