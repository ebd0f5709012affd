//! The last lines or bytes of an input, or what follows a given line or
//! byte.

use crate::headr::format_header;
use crate::headr::header;
use crate::number::parse_unsigned_in;
use crate::number::unsigned_within;
use crate::text::chars_of;
use crate::text::first_index;
use crate::text::from_utf8;
use crate::text::from_utf8_lossy;
use crate::text::lemma_first_index;
use crate::text::lines_len;
use crate::text::lossy_text;
use crate::text::lemma_first_line;
use crate::text::measure_lines;
use crate::text::Input;
use crate::text::read_valid_lines;
use crate::text::readable_lines;
use vstd::prelude::*;
use vstd::slice::slice_subrange;
use vstd::string::*;
use vstd::utf8::valid_utf8;

verus! {

/// A position in an input: counted from its start, or from its end.
#[derive(Debug, Clone, Copy, PartialEq, Eq, Structural)]
pub enum Number {
    /// The output starts at the item with this number, counted from one.
    Positive(usize),
    /// The output holds this many items from the end.
    Negative(usize),
}

/// Why a text is not a count.
#[derive(Debug, Clone, Copy, PartialEq, Eq, Structural)]
pub enum CountError {
    /// The text is empty or starts with a line feed.
    Missing,
    /// What stands for the number is not an unsigned number that fits the
    /// machine.
    InvalidNumber,
}

/// Whether `c` can stand before the number of a count.
pub open spec fn is_sign(c: char) -> bool {
    c == '+' || c == '|' || c == '-'
}

/// The count that `text` denotes. Only the text before the first line feed
/// counts. A sign before it is split off, unless nothing would be left; what
/// remains is read as an unsigned number. A `+` makes the count one from the
/// start; with any other sign, or none, it is one from the end.
pub open spec fn count_of(text: Seq<char>) -> Result<Number, CountError> {
    let line = text.take(first_index(text, '\n'));
    if line.len() == 0 {
        Err(CountError::Missing)
    } else {
        let signed = line.len() >= 2 && is_sign(line[0]);
        let value = if signed {
            line.drop_first()
        } else {
            line
        };
        match unsigned_within(value, usize::MAX as nat) {
            None => Err(CountError::InvalidNumber),
            Some(n) => if signed && line[0] == '+' {
                Ok(Number::Positive(n as usize))
            } else {
                Ok(Number::Negative(n as usize))
            },
        }
    }
}

/// Reads a count from `input`.
pub fn parse_count(input: &str) -> (r: Result<Number, CountError>)
    ensures
        r == count_of(input@),
{
    let chars = chars_of(input);
    let mut end: usize = 0;
    while end < chars.len() && chars[end] != '\n'
        invariant
            end <= chars.len(),
            chars@ == input@,
            forall|k: int| 0 <= k < end ==> input@[k] != '\n',
        decreases chars.len() - end,
    {
        end += 1;
    }
    proof {
        lemma_first_index(input@, '\n', 0);
        let feed = first_index(input@, '\n');
        if feed < end {
            assert(input@[feed] != '\n');
        }
        assert(feed == end);
    }
    let ghost line = input@.take(end as int);
    if end == 0 {
        return Err(CountError::Missing);
    }
    let first = chars[0];
    assert(line[0] == first);
    let signed = end >= 2 && (first == '+' || first == '|' || first == '-');
    let from: usize = if signed {
        1
    } else {
        0
    };
    proof {
        if signed {
            assert(chars@.subrange(1, end as int) =~= line.drop_first());
        } else {
            assert(chars@.subrange(0, end as int) =~= line);
        }
    }
    match parse_unsigned_in(chars.as_slice(), from, end, usize::MAX as u64) {
        None => Err(CountError::InvalidNumber),
        Some(n) => if signed && first == '+' {
            Ok(Number::Positive(n as usize))
        } else {
            Ok(Number::Negative(n as usize))
        },
    }
}

/// Reads a count of lines from `input`.
pub fn parse_lines(input: &str) -> (r: Result<Number, CountError>)
    ensures
        r == count_of(input@),
{
    parse_count(input)
}

/// Reads a count of bytes from `input`.
pub fn parse_bytes(input: &str) -> (r: Result<Number, CountError>)
    ensures
        r == count_of(input@),
{
    parse_count(input)
}

/// How many items to pass over before the output starts, in an input of
/// `total` items.
pub open spec fn items_to_skip(total: nat, number: Number) -> nat {
    match number {
        Number::Positive(n) => if n == 0 {
            0
        } else {
            (n - 1) as nat
        },
        Number::Negative(n) => if total < n {
            0
        } else {
            (total - n) as nat
        },
    }
}

/// Computes how many items to pass over.
pub fn skip_count(total: usize, number: Number) -> (r: usize)
    ensures
        r == items_to_skip(total as nat, number),
{
    match number {
        Number::Positive(n) => if n == 0 {
            0
        } else {
            n - 1
        },
        Number::Negative(n) => if total < n {
            0
        } else {
            total - n
        },
    }
}

/// What is left of `items` after the first `n`; nothing if there are no
/// more than `n`.
pub open spec fn rest_after<T>(items: Seq<T>, n: nat) -> Seq<T> {
    if n <= items.len() {
        items.skip(n as int)
    } else {
        Seq::empty()
    }
}

/// The bytes of `file` that `number` selects.
pub open spec fn tail_bytes(file: Seq<u8>, number: Number) -> Seq<u8> {
    rest_after(file, items_to_skip(file.len(), number))
}

/// The bytes of `file` that `number` selects, as text, with the replacement
/// character in place of what is not UTF-8.
pub fn read_bytes(file: &[u8], number: Number) -> (r: String)
    ensures
        r@ == lossy_text(tail_bytes(file@, number)),
{
    let skip = skip_count(file.len(), number);
    if skip <= file.len() {
        let rest = slice_subrange(file, skip, file.len());
        assert(rest@ =~= file@.skip(skip as int));
        from_utf8_lossy(rest)
    } else {
        let rest = slice_subrange(file, 0, 0);
        assert(rest@ =~= Seq::<u8>::empty());
        from_utf8_lossy(rest)
    }
}

/// The number of lines of `bytes`. A line ends with a line feed; what
/// follows the last line feed is a line too, unless it is empty.
pub open spec fn line_total(bytes: Seq<u8>) -> nat
    decreases bytes.len(),
    via line_total_decreases
{
    if bytes.len() == 0 {
        0
    } else {
        1 + line_total(bytes.skip(lines_len(bytes, 1)))
    }
}

/// The lines of `file` that `number` selects, as text. The lines are read
/// in order, those passed over too, and reading stops at the first line that
/// is not UTF-8: nothing is shown of that line or of what follows it.
pub open spec fn tail_lines(file: Seq<u8>, number: Number) -> Seq<char> {
    let passed = lines_len(file, items_to_skip(line_total(file), number));
    if valid_utf8(file.take(passed)) {
        readable_lines(file.skip(passed))
    } else {
        Seq::empty()
    }
}

#[via_fn]
proof fn line_total_decreases(bytes: Seq<u8>) {
    if bytes.len() > 0 {
        lemma_first_line(bytes);
    }
}

/// Counts the lines of `file`.
pub fn count_lines(file: &[u8]) -> (r: usize)
    ensures
        r == line_total(file@),
{
    let mut total: usize = 0;
    let mut i: usize = 0;
    assert(file@.skip(0) =~= file@);
    while i < file.len()
        invariant
            i <= file.len(),
            total <= i,
            line_total(file@) == total + line_total(file@.skip(i as int)),
        decreases file.len() - i,
    {
        let rest = slice_subrange(file, i, file.len());
        assert(rest@ =~= file@.skip(i as int));
        proof {
            lemma_first_line(rest@);
        }
        let len = measure_lines(rest, 1);
        assert(rest@.skip(len as int) =~= file@.skip(i + len));
        total += 1;
        i += len;
    }
    total
}

/// The lines of `file` that `number` selects, as text.
pub fn read_lines(file: &[u8], number: Number) -> (r: String)
    ensures
        r@ == tail_lines(file@, number),
{
    let total = count_lines(file);
    let skip = skip_count(total, number);
    let passed = measure_lines(file, skip);
    if from_utf8(slice_subrange(file, 0, passed)).is_none() {
        return String::new();
    }
    let rest = slice_subrange(file, passed, file.len());
    assert(rest@ =~= file@.skip(passed as int));
    read_valid_lines(rest).0
}

/// What to show of which inputs.
#[derive(Debug)]
pub struct Config {
    /// The names of the inputs.
    pub files: Vec<String>,
    /// Which bytes to show, in place of lines.
    pub bytes: Option<Number>,
    /// Which lines to show.
    pub lines: Number,
    /// Show no headers.
    pub quiet: bool,
}

/// The part of one input that `config` asks for.
pub open spec fn body(config: &Config, file: Seq<u8>) -> Seq<char> {
    match config.bytes {
        Some(number) => lossy_text(tail_bytes(file, number)),
        None => tail_lines(file, config.lines),
    }
}

/// What is written for the input at `index`: its header, where there are
/// several inputs and headers are not switched off, and then its part.
pub open spec fn section(config: &Config, inputs: Seq<Input>, index: int, file: Seq<u8>) -> Seq<
    char,
> {
    let head = if config.quiet {
        Seq::<char>::empty()
    } else {
        header(index as nat, inputs[index].name@, inputs.len())
    };
    head + body(config, file)
}

/// What a run writes for the first `n` inputs; an input that could not be
/// opened writes nothing.
pub open spec fn report(config: &Config, inputs: Seq<Input>, n: int) -> Seq<char>
    decreases n,
{
    if n <= 0 {
        Seq::empty()
    } else {
        match inputs[n - 1].content {
            None => report(config, inputs, n - 1),
            Some(file) => report(config, inputs, n - 1) + section(config, inputs, n - 1, file@),
        }
    }
}

/// Shows the end of each of `inputs`, as `config` asks.
pub fn run(config: &Config, inputs: &Vec<Input>) -> (r: String)
    ensures
        r@ == report(config, inputs@, inputs.len() as int),
{
    let mut out = String::new();
    let n = inputs.len();
    let mut i: usize = 0;
    while i < n
        invariant
            i <= n,
            n == inputs.len(),
            out@ == report(config, inputs@, i as int),
        decreases n - i,
    {
        let ghost before = out@;
        match &inputs[i].content {
            None => {},
            Some(file) => {
                if !config.quiet {
                    let head = format_header(i, inputs[i].name.as_str(), n);
                    out.append(head.as_str());
                }
                let text = match config.bytes {
                    Some(number) => read_bytes(file.as_slice(), number),
                    None => read_lines(file.as_slice(), config.lines),
                };
                out.append(text.as_str());
                assert(out@ =~= before + section(config, inputs@, i as int, file@));
            },
        }
        i += 1;
    }
    out
}

} // verus!
