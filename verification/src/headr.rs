//! The first lines or bytes of an input.

use crate::text::from_utf8;
use crate::text::from_utf8_lossy;
use crate::text::lines_len;
use crate::text::lossy_text;
use crate::text::Input;
use crate::text::measure_lines;
use vstd::prelude::*;
use vstd::slice::slice_subrange;
use vstd::string::*;
use vstd::utf8::decode_utf8;
use vstd::utf8::encode_utf8_decode_utf8;
use vstd::utf8::valid_utf8;

verus! {

/// Why the start of an input cannot be shown.
#[derive(Clone, Copy, Debug, PartialEq, Eq, Structural)]
pub enum HeadError {
    /// The lines asked for are not UTF-8.
    InvalidUtf8,
}

/// What to show of which inputs.
#[derive(Debug)]
pub struct Config {
    /// The names of the inputs; `-` stands for the standard input.
    pub files: Vec<String>,
    /// How many lines to show of each input.
    pub lines: usize,
    /// How many bytes to show of each input, in place of lines.
    pub bytes: Option<usize>,
}

/// The first `n` lines of a file, as bytes.
pub open spec fn first_lines(bytes: Seq<u8>, n: nat) -> Seq<u8> {
    bytes.take(lines_len(bytes, n))
}

/// The first `n` bytes of a file; the whole file if it is shorter.
pub open spec fn first_bytes(bytes: Seq<u8>, n: nat) -> Seq<u8> {
    if n <= bytes.len() {
        bytes.take(n as int)
    } else {
        bytes
    }
}

/// The first `number_of_lines` lines of `file`, with their line feeds, as
/// text; an error if these lines are not UTF-8. What follows them is not
/// looked at.
pub fn read_lines_from_file(file: &[u8], number_of_lines: usize) -> (r: Result<String, HeadError>)
    ensures
        valid_utf8(first_lines(file@, number_of_lines as nat)) ==> (r matches Ok(text) && text@
            == decode_utf8(first_lines(file@, number_of_lines as nat))),
        !valid_utf8(first_lines(file@, number_of_lines as nat)) ==> r == Err::<String, HeadError>(
            HeadError::InvalidUtf8,
        ),
{
    let end = measure_lines(file, number_of_lines);
    let head = slice_subrange(file, 0, end);
    match from_utf8(head) {
        Some(text) => {
            proof {
                encode_utf8_decode_utf8(text@);
            }
            Ok(String::from_str(text))
        },
        None => Err(HeadError::InvalidUtf8),
    }
}

/// The first `number_of_bytes` bytes of `file` as text, with the replacement
/// character in place of what is not UTF-8.
pub fn read_bytes_from_file(file: &[u8], number_of_bytes: usize) -> (r: String)
    ensures
        r@ == lossy_text(first_bytes(file@, number_of_bytes as nat)),
{
    if number_of_bytes <= file.len() {
        from_utf8_lossy(slice_subrange(file, 0, number_of_bytes))
    } else {
        from_utf8_lossy(file)
    }
}

/// The line that announces the input called `name`, where several inputs are
/// shown: the name between arrows, after an empty line unless it is the
/// first input. A single input is not announced.
pub open spec fn header(index: nat, name: Seq<char>, number_of_files: nat) -> Seq<char> {
    if number_of_files <= 1 {
        Seq::empty()
    } else if index == 0 {
        "==> "@ + name + " <==\n"@
    } else {
        "\n==> "@ + name + " <==\n"@
    }
}

/// The header for the input at `index` of `number_of_files` inputs.
pub fn format_header(index: usize, name: &str, number_of_files: usize) -> (r: String)
    ensures
        r@ == header(index as nat, name@, number_of_files as nat),
{
    let mut out = String::new();
    if number_of_files > 1 {
        if index == 0 {
            out.append("==> ");
        } else {
            out.append("\n==> ");
        }
        out.append(name);
        out.append(" <==\n");
    }
    assert(out@ =~= header(index as nat, name@, number_of_files as nat));
    out
}

/// What is shown of one input: its first bytes or its first lines, as
/// `config` asks.
pub open spec fn body(config: &Config, file: Seq<u8>) -> Result<Seq<char>, HeadError> {
    match config.bytes {
        Some(n) => Ok(lossy_text(first_bytes(file, n as nat))),
        None => if valid_utf8(first_lines(file, config.lines as nat)) {
            Ok(decode_utf8(first_lines(file, config.lines as nat)))
        } else {
            Err(HeadError::InvalidUtf8)
        },
    }
}

/// The part of one input that `config` asks for.
pub fn format_body(config: &Config, file: &[u8]) -> (r: Result<String, HeadError>)
    ensures
        r matches Ok(text) ==> body(config, file@) == Ok::<Seq<char>, HeadError>(text@),
        r matches Err(e) ==> body(config, file@) == Err::<Seq<char>, HeadError>(e),
{
    match config.bytes {
        Some(n) => Ok(read_bytes_from_file(file, n)),
        None => read_lines_from_file(file, config.lines),
    }
}

/// What has been written, and the error that ended the run, if any.
pub struct Outcome {
    pub output: Seq<char>,
    pub error: Option<HeadError>,
}

/// What a run writes for the first `n` inputs. An input that could not be
/// opened writes nothing; an input whose part cannot be shown ends the run
/// after its header.
pub open spec fn outcome(config: &Config, inputs: Seq<Input>, n: int) -> Outcome
    decreases n,
{
    if n <= 0 {
        Outcome { output: Seq::empty(), error: None }
    } else {
        let before = outcome(config, inputs, n - 1);
        if before.error is Some {
            before
        } else {
            match inputs[n - 1].content {
                None => before,
                Some(file) => {
                    let head = header((n - 1) as nat, inputs[n - 1].name@, inputs.len());
                    match body(config, file@) {
                        Ok(text) => Outcome {
                            output: before.output + head + text,
                            error: None,
                        },
                        Err(e) => Outcome { output: before.output + head, error: Some(e) },
                    }
                },
            }
        }
    }
}

/// Shows the start of each of `inputs`, as `config` asks. Returns what is
/// written and the error that ended the run early, if there was one.
pub fn run(config: &Config, inputs: &Vec<Input>) -> (r: (String, Option<HeadError>))
    ensures
        r.0@ == outcome(config, inputs@, inputs.len() as int).output,
        r.1 == outcome(config, inputs@, inputs.len() as int).error,
{
    let mut out = String::new();
    let mut i: usize = 0;
    let n = inputs.len();
    while i < n
        invariant
            i <= n,
            n == inputs.len(),
            out@ == outcome(config, inputs@, i as int).output,
            outcome(config, inputs@, i as int).error is None,
        decreases n - i,
    {
        let ghost before = out@;
        match &inputs[i].content {
            None => {},
            Some(file) => {
                let head = format_header(i, inputs[i].name.as_str(), n);
                out.append(head.as_str());
                match format_body(config, file.as_slice()) {
                    Ok(text) => {
                        out.append(text.as_str());
                    },
                    Err(e) => {
                        proof {
                            lemma_outcome_stays(config, inputs@, i + 1, n as int);
                        }
                        return (out, Some(e));
                    },
                }
            },
        }
        i += 1;
    }
    (out, None)
}

/// Once a run has ended with an error, later inputs change nothing.
proof fn lemma_outcome_stays(config: &Config, inputs: Seq<Input>, k: int, n: int)
    requires
        0 <= k <= n,
        outcome(config, inputs, k).error is Some,
    ensures
        outcome(config, inputs, n) == outcome(config, inputs, k),
    decreases n - k,
{
    if k < n {
        lemma_outcome_stays(config, inputs, k, n - 1);
    }
}

} // verus!
