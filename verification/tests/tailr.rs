use regex::Regex;
use std::io::{BufRead, Cursor, Read};
use textutils::text::Input;
use textutils::tailr::{
    count_lines, parse_bytes, parse_count, parse_lines, read_bytes, read_lines, run, skip_count,
    Config, CountError, Number,
};

fn expected_parse(input: &str) -> Option<Number> {
    let regex = Regex::new(r"(?<sign>^[\+|\-]?)(?<value>.+)").unwrap();
    let m = regex.captures(input)?;
    let sign = &m["sign"];
    let value: usize = m["value"].parse().ok()?;
    match sign {
        "+" => Some(Number::Positive(value)),
        _ => Some(Number::Negative(value)),
    }
}

fn expected_bytes(content: &[u8], number_of_bytes: usize, from_end: bool) -> String {
    let skip_bytes;
    if from_end {
        let total_bytes = Cursor::new(content).bytes().count();
        skip_bytes =
            if total_bytes < number_of_bytes { 0 } else { total_bytes - number_of_bytes };
    } else {
        skip_bytes = if number_of_bytes == 0 { 0 } else { number_of_bytes - 1 };
    }
    let mut output: Vec<u8> = Vec::new();
    for byte in Cursor::new(content).bytes().skip(skip_bytes) {
        output.push(byte.unwrap());
    }
    String::from_utf8_lossy(&output).to_string()
}

fn expected_lines(content: &[u8], number_of_lines: usize, from_end: bool) -> String {
    let mut out = String::new();
    let range;
    if from_end {
        let total_lines = Cursor::new(content).lines().count();
        let start_line =
            if total_lines < number_of_lines { 0 } else { total_lines - number_of_lines };
        range = 0..start_line;
    } else {
        range = 1..number_of_lines;
    }
    let mut file = Cursor::new(content);
    let mut line = String::new();
    for _ in range {
        let bytes = match file.read_line(&mut line) {
            Ok(bytes) => bytes,
            Err(_) => return out,
        };
        if bytes == 0 {
            break;
        }
        line.clear();
    }
    loop {
        let bytes = match file.read_line(&mut line) {
            Ok(bytes) => bytes,
            Err(_) => return out,
        };
        if bytes == 0 {
            break;
        }
        out.push_str(&line);
        line.clear();
    }
    out
}

fn inputs(items: &[(&str, Option<&[u8]>)]) -> Vec<Input> {
    items
        .iter()
        .map(|(name, content)| Input {
            name: name.to_string(),
            content: content.map(|bytes| bytes.to_vec()),
        })
        .collect()
}

#[test]
fn counts_from_the_start_and_from_the_end() {
    assert_eq!(parse_count("5"), Ok(Number::Negative(5)));
    assert_eq!(parse_count("-5"), Ok(Number::Negative(5)));
    assert_eq!(parse_count("+5"), Ok(Number::Positive(5)));
    assert_eq!(parse_count("|5"), Ok(Number::Negative(5)));
    assert_eq!(parse_count("++5"), Ok(Number::Positive(5)));
    assert_eq!(parse_count("-+5"), Ok(Number::Negative(5)));
    assert_eq!(parse_count("0"), Ok(Number::Negative(0)));
    assert_eq!(parse_count("+0"), Ok(Number::Positive(0)));
    assert_eq!(parse_count("12\n34"), Ok(Number::Negative(12)));
    assert_eq!(parse_lines("+3"), Ok(Number::Positive(3)));
    assert_eq!(parse_bytes("3"), Ok(Number::Negative(3)));
}

#[test]
fn counts_that_are_refused() {
    assert_eq!(parse_count(""), Err(CountError::Missing));
    assert_eq!(parse_count("\n5"), Err(CountError::Missing));
    assert_eq!(parse_count("+"), Err(CountError::InvalidNumber));
    assert_eq!(parse_count("-"), Err(CountError::InvalidNumber));
    assert_eq!(parse_count("a"), Err(CountError::InvalidNumber));
    assert_eq!(parse_count("--5"), Err(CountError::InvalidNumber));
    assert_eq!(parse_count("5x"), Err(CountError::InvalidNumber));
    assert_eq!(parse_count(" 5"), Err(CountError::InvalidNumber));
    assert_eq!(parse_count("99999999999999999999999"), Err(CountError::InvalidNumber));
    assert_eq!(parse_lines("x"), Err(CountError::InvalidNumber));
    assert_eq!(parse_bytes(""), Err(CountError::Missing));
}

#[test]
fn counts_agree_with_the_regular_expression() {
    let samples = [
        "", "0", "1", "+1", "-1", "|1", "++1", "+-1", "-+1", "||1", "+", "-", "|", "a", "1a",
        "+a", "12\n", "\n12", "+12\n-3", "1\r", " 1", "+ 1", "007", "+007", "1-2", "٣",
        "18446744073709551615", "18446744073709551616", "+18446744073709551615", "-|+", "+\n",
    ];
    for text in samples {
        assert_eq!(parse_count(text).ok(), expected_parse(text), "{:?}", text);
    }
}

#[test]
fn how_much_is_passed_over() {
    assert_eq!(skip_count(10, Number::Positive(0)), 0);
    assert_eq!(skip_count(10, Number::Positive(1)), 0);
    assert_eq!(skip_count(10, Number::Positive(4)), 3);
    assert_eq!(skip_count(10, Number::Positive(40)), 39);
    assert_eq!(skip_count(10, Number::Negative(0)), 10);
    assert_eq!(skip_count(10, Number::Negative(3)), 7);
    assert_eq!(skip_count(10, Number::Negative(10)), 0);
    assert_eq!(skip_count(10, Number::Negative(11)), 0);
}

#[test]
fn the_last_bytes_of_a_file() {
    assert_eq!(read_bytes(b"hello", Number::Negative(2)), "lo");
    assert_eq!(read_bytes(b"hello", Number::Negative(9)), "hello");
    assert_eq!(read_bytes(b"hello", Number::Negative(0)), "");
    assert_eq!(read_bytes(b"hello", Number::Positive(2)), "ello");
    assert_eq!(read_bytes(b"hello", Number::Positive(0)), "hello");
    assert_eq!(read_bytes(b"hello", Number::Positive(6)), "");
    assert_eq!(read_bytes(b"hello", Number::Positive(60)), "");
    assert_eq!(read_bytes("é".as_bytes(), Number::Negative(1)), "\u{fffd}");
}

#[test]
fn the_last_lines_of_a_file() {
    let file = b"one\ntwo\nthree\nfour\n";
    assert_eq!(count_lines(file), 4);
    assert_eq!(count_lines(b"one\ntwo"), 2);
    assert_eq!(count_lines(b""), 0);
    assert_eq!(read_lines(file, Number::Negative(2)), "three\nfour\n");
    assert_eq!(read_lines(file, Number::Negative(0)), "");
    assert_eq!(read_lines(file, Number::Negative(9)), "one\ntwo\nthree\nfour\n");
    assert_eq!(read_lines(file, Number::Positive(3)), "three\nfour\n");
    assert_eq!(read_lines(file, Number::Positive(0)), "one\ntwo\nthree\nfour\n");
    assert_eq!(read_lines(file, Number::Positive(9)), "");
    assert_eq!(read_lines(b"a\nb", Number::Negative(1)), "b");
}

#[test]
fn lines_that_are_not_text_end_the_reading() {
    assert_eq!(read_lines(b"a\n\xff\nc\n", Number::Negative(3)), "a\n");
    assert_eq!(read_lines(b"a\n\xff\nc\n", Number::Negative(1)), "");
    assert_eq!(read_lines(b"a\nb\n\xff\n", Number::Negative(2)), "b\n");
    assert_eq!(read_lines(b"a\nb\n\xff\n", Number::Positive(2)), "b\n");
}

#[test]
fn tails_agree_with_the_readers() {
    let files: [&[u8]; 9] = [
        b"",
        b"a",
        b"a\n",
        b"a\nb\nc\n",
        b"a\nb\nc",
        b"\n\n\n",
        b"ok\n\xffbad\nmore\n",
        b"\xff\nok\n",
        "é\n日本\nü".as_bytes(),
    ];
    for file in files {
        for n in 0..6 {
            assert_eq!(read_bytes(file, Number::Negative(n)), expected_bytes(file, n, true));
            assert_eq!(read_bytes(file, Number::Positive(n)), expected_bytes(file, n, false));
            assert_eq!(read_lines(file, Number::Negative(n)), expected_lines(file, n, true), "{:?} -{}", file, n);
            assert_eq!(read_lines(file, Number::Positive(n)), expected_lines(file, n, false), "{:?} +{}", file, n);
        }
    }
}

#[test]
fn a_run_shows_the_end_of_every_input() {
    let files = vec!["a".to_string(), "gone".to_string(), "b".to_string()];
    let contents = inputs(&[("a", Some(b"1\n2\n3\n")), ("gone", None), ("b", Some(b"x\ny\n"))]);
    let cfg = Config { files: files.clone(), bytes: None, lines: Number::Negative(1), quiet: false };
    assert_eq!(run(&cfg, &contents), "==> a <==\n3\n\n==> b <==\ny\n");
    let quiet = Config { files: files.clone(), bytes: None, lines: Number::Negative(1), quiet: true };
    assert_eq!(run(&quiet, &contents), "3\ny\n");
    let bytes = Config {
        files,
        bytes: Some(Number::Positive(5)),
        lines: Number::Negative(10),
        quiet: true,
    };
    assert_eq!(run(&bytes, &contents), "3\n");
    let single = Config {
        files: vec!["a".to_string()],
        bytes: None,
        lines: Number::Positive(2),
        quiet: false,
    };
    assert_eq!(run(&single, &inputs(&[("a", Some(b"1\n2\n3\n"))])), "2\n3\n");
}
