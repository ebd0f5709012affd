use std::io::{BufRead, Cursor, Read};
use textutils::text::Input;
use textutils::headr::{
    format_body, format_header, read_bytes_from_file, read_lines_from_file, run, Config, HeadError,
};

fn expected_lines(content: &[u8], number_of_lines: usize) -> Option<String> {
    let mut file = Cursor::new(content);
    let mut lines = String::new();
    for _ in 0..number_of_lines {
        let bytes_read = file.read_line(&mut lines).ok()?;
        if bytes_read == 0 {
            break;
        }
    }
    Some(lines)
}

fn expected_bytes(content: &[u8], b: usize) -> String {
    let bytes: Vec<u8> = Cursor::new(content).bytes().take(b).map(|x| x.unwrap()).collect();
    String::from_utf8_lossy(&bytes).to_string()
}

fn inputs(items: &[(&str, Option<&[u8]>)]) -> Vec<Input> {
    items
        .iter()
        .map(|(name, content)| Input {
            name: name.to_string(),
            content: content.map(|bytes| bytes.to_vec()),
        })
        .collect()
}

fn config(files: &[&str], lines: usize, bytes: Option<usize>) -> Config {
    Config { files: files.iter().map(|s| s.to_string()).collect(), lines, bytes }
}

#[test]
fn the_first_lines_of_a_file() {
    assert_eq!(read_lines_from_file(b"one\ntwo\nthree\n", 2), Ok("one\ntwo\n".to_string()));
    assert_eq!(read_lines_from_file(b"one\ntwo\nthree\n", 0), Ok("".to_string()));
    assert_eq!(read_lines_from_file(b"one\ntwo\nthree", 10), Ok("one\ntwo\nthree".to_string()));
    assert_eq!(read_lines_from_file(b"", 3), Ok("".to_string()));
    assert_eq!(read_lines_from_file("é\nü\n".as_bytes(), 1), Ok("é\n".to_string()));
}

#[test]
fn lines_that_are_not_text_are_an_error() {
    assert_eq!(read_lines_from_file(b"one\n\xff\nthree\n", 2), Err(HeadError::InvalidUtf8));
    assert_eq!(read_lines_from_file(b"one\n\xff\nthree\n", 1), Ok("one\n".to_string()));
    assert_eq!(read_lines_from_file(b"\xc3", 1), Err(HeadError::InvalidUtf8));
}

#[test]
fn first_lines_agree_with_read_line() {
    let files: [&[u8]; 8] =
        [b"", b"a", b"a\n", b"a\nb\nc\n", b"\n\n\n", b"a\r\nb", b"ok\n\xffbad\nmore\n", "é\n日本\n".as_bytes()];
    for file in files {
        for n in 0..5 {
            assert_eq!(read_lines_from_file(file, n).ok(), expected_lines(file, n), "{:?} {}", file, n);
        }
    }
}

#[test]
fn the_first_bytes_of_a_file() {
    assert_eq!(read_bytes_from_file(b"hello", 2), "he");
    assert_eq!(read_bytes_from_file(b"hello", 0), "");
    assert_eq!(read_bytes_from_file(b"hello", 9), "hello");
    assert_eq!(read_bytes_from_file("é".as_bytes(), 1), "\u{fffd}");
    for file in [&b"abc\ndef"[..], "héllo".as_bytes(), b"\xff\xfe"] {
        for n in 0..9 {
            assert_eq!(read_bytes_from_file(file, n), expected_bytes(file, n));
        }
    }
}

#[test]
fn headers_announce_each_of_several_inputs() {
    assert_eq!(format_header(0, "a.txt", 1), "");
    assert_eq!(format_header(0, "a.txt", 2), "==> a.txt <==\n");
    assert_eq!(format_header(1, "b.txt", 2), "\n==> b.txt <==\n");
    assert_eq!(format_header(5, "z", 0), "");
}

#[test]
fn the_body_is_bytes_or_lines() {
    assert_eq!(format_body(&config(&[], 1, None), b"a\nb\n"), Ok("a\n".to_string()));
    assert_eq!(format_body(&config(&[], 1, Some(3)), b"a\nb\n"), Ok("a\nb".to_string()));
    assert_eq!(format_body(&config(&[], 1, None), b"\xff\n"), Err(HeadError::InvalidUtf8));
    assert_eq!(format_body(&config(&[], 1, Some(1)), b"\xff\n"), Ok("\u{fffd}".to_string()));
}

#[test]
fn a_run_shows_every_input_that_can_be_opened() {
    let cfg = config(&["a", "gone", "b"], 1, None);
    let several = inputs(&[("a", Some(b"1\n2\n")), ("gone", None), ("b", Some(b"x\ny\n"))]);
    assert_eq!(run(&cfg, &several), ("==> a <==\n1\n\n==> b <==\nx\n".to_string(), None));
    let single = config(&["a"], 2, None);
    assert_eq!(run(&single, &inputs(&[("a", Some(b"1\n2\n3\n"))])), ("1\n2\n".to_string(), None));
    assert_eq!(run(&single, &inputs(&[("a", None)])), ("".to_string(), None));
    assert_eq!(run(&single, &inputs(&[])), ("".to_string(), None));
    let first_gone = inputs(&[("gone", None), ("b", Some(b"x\ny\n"))]);
    assert_eq!(run(&cfg, &first_gone), ("\n==> b <==\nx\n".to_string(), None));
}

#[test]
fn a_run_ends_at_an_input_that_is_not_text() {
    let cfg = config(&["a", "bad", "b"], 1, None);
    let broken = inputs(&[("a", Some(b"1\n")), ("bad", Some(b"\xff\n")), ("b", Some(b"x\n"))]);
    assert_eq!(
        run(&cfg, &broken),
        ("==> a <==\n1\n\n==> bad <==\n".to_string(), Some(HeadError::InvalidUtf8))
    );
}
