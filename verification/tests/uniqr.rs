use std::io::{BufRead, Cursor};
use textutils::uniqr::{run, same_chars, same_line, Config};

fn expected(content: &[u8], count: bool) -> (String, bool) {
    let mut out = String::new();
    let mut file = Cursor::new(content);
    let mut current_line = String::new();
    let mut next_line = String::new();
    let bytes_read = match file.read_line(&mut current_line) {
        Ok(n) => n,
        Err(_) => return (out, false),
    };
    if bytes_read == 0 {
        return (out, true);
    }
    let mut counter = 1;
    loop {
        let bytes_read = match file.read_line(&mut next_line) {
            Ok(n) => n,
            Err(_) => return (out, false),
        };
        let mut count_string = String::new();
        if count {
            count_string = format!("{:4} ", counter);
        }
        if bytes_read == 0 {
            out.push_str(&format!("{}{}", count_string, current_line));
            break;
        }
        if current_line.trim() != next_line.trim() {
            out.push_str(&format!("{}{}", count_string, current_line));
            current_line = next_line.clone();
            counter = 1;
        } else {
            counter += 1;
        }
        next_line.clear();
    }
    (out, true)
}

fn config(count: bool) -> Config {
    Config { input_file: "-".to_string(), output_file: None, count }
}

fn chars(text: &str) -> Vec<char> {
    text.chars().collect()
}

#[test]
fn runs_of_equal_lines_are_folded() {
    assert_eq!(run(&config(false), b"a\na\nb\na\n"), ("a\nb\na\n".to_string(), true));
    assert_eq!(run(&config(true), b"a\na\nb\na\n"), ("   2 a\n   1 b\n   1 a\n".to_string(), true));
    assert_eq!(run(&config(true), b""), ("".to_string(), true));
    assert_eq!(run(&config(true), b"x"), ("   1 x".to_string(), true));
    assert_eq!(run(&config(false), b"x\nx"), ("x\n".to_string(), true));
}

#[test]
fn white_space_at_the_ends_does_not_count() {
    assert_eq!(run(&config(true), b"a\n a \n\ta\nb\n"), ("   3 a\n   1 b\n".to_string(), true));
    assert_eq!(run(&config(false), b" a\na\n"), (" a\n".to_string(), true));
    assert_eq!(run(&config(true), b"\n  \n\t\n"), ("   3 \n".to_string(), true));
    assert!(same_line(&chars(" a b \n"), &chars("a b")));
    assert!(!same_line(&chars("a b"), &chars("ab")));
    assert!(same_line(&chars(""), &chars(" \n")));
    assert!(same_line(&chars("\u{3000}x\u{a0}"), &chars("x")));
    assert!(same_chars(&chars("abc"), &chars("abc")));
    assert!(!same_chars(&chars("abc"), &chars("abd")));
    assert!(!same_chars(&chars("abc"), &chars("ab")));
}

#[test]
fn a_line_that_is_not_text_ends_the_run() {
    assert_eq!(run(&config(true), b"a\na\nb\n\xff\nc\n"), ("   2 a\n".to_string(), false));
    assert_eq!(run(&config(false), b"\xff\n"), ("".to_string(), false));
    assert_eq!(run(&config(false), b"a\n\xff\n"), ("".to_string(), false));
}

#[test]
fn folding_agrees_with_the_reader() {
    let files: [&[u8]; 12] = [
        b"",
        b"a",
        b"a\n",
        b"a\na\n",
        b"a\nb\n",
        b"a\na\nb\nb\nb\na\n",
        b"a \n a\n  a  \nb\n",
        b"\n\n\n",
        b"x\r\nx\nx \n",
        b"a\n\xff\nb\n",
        b"a\nb\n\xff",
        "é\né \nü\n".as_bytes(),
    ];
    for file in files {
        for count in [false, true] {
            assert_eq!(run(&config(count), file), expected(file, count), "{:?} {}", file, count);
        }
    }
}

#[test]
fn long_runs_widen_the_field() {
    let mut file = Vec::new();
    for _ in 0..12345 {
        file.extend_from_slice(b"same\n");
    }
    assert_eq!(run(&config(true), &file), ("12345 same\n".to_string(), true));
}
