use std::io::{BufRead, Cursor};
use textutils::catr::{run, Config};
use textutils::text::Input;

fn expected(config: &Config, contents: &[Input]) -> (String, bool) {
    let mut out = String::new();
    let mut line_number = 0;
    for content in contents {
        if let Some(bytes) = &content.content {
            for line in Cursor::new(bytes.as_slice()).lines() {
                let line = match line {
                    Ok(line) => line,
                    Err(_) => return (out, false),
                };
                if config.number_lines {
                    line_number += 1;
                    out.push_str(&format!("{:6}\t{line}\n", line_number));
                } else if config.number_nonblank_lines && !line.is_empty() {
                    line_number += 1;
                    out.push_str(&format!("{:6}\t{line}\n", line_number));
                } else {
                    out.push_str(&format!("{line}\n"));
                }
            }
        }
    }
    (out, true)
}

fn config(number_lines: bool, number_nonblank_lines: bool) -> Config {
    Config { files: vec![], number_lines, number_nonblank_lines }
}

fn inputs(items: &[(&str, Option<&[u8]>)]) -> Vec<Input> {
    items
        .iter()
        .map(|(name, content)| Input {
            name: name.to_string(),
            content: content.map(|bytes| bytes.to_vec()),
        })
        .collect()
}

fn one(text: &[u8]) -> Vec<Input> {
    inputs(&[("a", Some(text))])
}

#[test]
fn lines_are_written_as_they_are() {
    assert_eq!(run(&config(false, false), &one(b"a\n\nb\n")), ("a\n\nb\n".to_string(), true));
    assert_eq!(run(&config(false, false), &one(b"a\nb")), ("a\nb\n".to_string(), true));
    assert_eq!(run(&config(false, false), &one(b"a\r\nb\r\n")), ("a\nb\n".to_string(), true));
    assert_eq!(run(&config(false, false), &one(b"")), ("".to_string(), true));
    assert_eq!(run(&config(false, false), &inputs(&[])), ("".to_string(), true));
}

#[test]
fn every_line_is_numbered() {
    assert_eq!(
        run(&config(true, false), &one(b"a\n\nb\n")),
        ("     1\ta\n     2\t\n     3\tb\n".to_string(), true)
    );
    assert_eq!(
        run(&config(true, true), &one(b"a\n\nb\n")),
        ("     1\ta\n     2\t\n     3\tb\n".to_string(), true)
    );
}

#[test]
fn only_lines_that_are_not_empty_are_numbered() {
    assert_eq!(
        run(&config(false, true), &one(b"a\n\nb\n \n")),
        ("     1\ta\n\n     2\tb\n     3\t \n".to_string(), true)
    );
    assert_eq!(run(&config(false, true), &one(b"\r\n")), ("\n".to_string(), true));
}

#[test]
fn numbers_run_on_across_inputs() {
    let contents = inputs(&[("a", Some(b"a\nb\n")), ("gone", None), ("b", Some(b"c\n"))]);
    assert_eq!(
        run(&config(true, false), &contents),
        ("     1\ta\n     2\tb\n     3\tc\n".to_string(), true)
    );
}

#[test]
fn an_input_that_is_not_text_ends_the_run() {
    let contents = inputs(&[("a", Some(b"a\n\xff\nb\n")), ("b", Some(b"c\n"))]);
    assert_eq!(run(&config(true, false), &contents), ("     1\ta\n".to_string(), false));
}

#[test]
fn wide_numbers_are_not_cut() {
    let mut file = Vec::new();
    for _ in 0..1_000_000 {
        file.push(b'\n');
    }
    let (out, complete) = run(&config(true, false), &one(&file));
    assert!(complete);
    assert!(out.ends_with("999999\t\n1000000\t\n"));
}

#[test]
fn writing_agrees_with_the_reader() {
    let files: [&[u8]; 9] = [
        b"",
        b"a",
        b"a\n",
        b"a\n\n\nb",
        b"\n",
        b"a\r\n\r\nb\r",
        b"ok\n\xffbad\nmore\n",
        "é\n日本\n".as_bytes(),
        b" \n\t\n",
    ];
    for a in files {
        for b in files {
            let contents = inputs(&[("a", Some(a)), ("gone", None), ("b", Some(b))]);
            for (n, nb) in [(false, false), (true, false), (false, true), (true, true)] {
                let cfg = config(n, nb);
                assert_eq!(run(&cfg, &contents), expected(&cfg, &contents));
            }
        }
    }
}
