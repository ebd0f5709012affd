//! Cutting parts out of the lines of a text: bytes, characters, or fields
//! that a delimiter separates.
//!
//! A part is selected by a range of positions. Positions count from one, and
//! a range holds both of its ends.

use crate::number::parse_unsigned_in;
use crate::number::unsigned_within;
use crate::text::chars_of;
use crate::text::content_len;
use crate::text::from_utf8_lossy;
use crate::text::lines_of;
use crate::text::lines_valid;
use crate::text::lossy_text;
use crate::text::read_valid_lines;
use crate::text::readable_lines;
use crate::text::split_lines;
use crate::text::string_of_range;
use crate::text::texts;
use crate::text::without_line_end;
use crate::text::Input;
use crate::text::first_index;
use crate::text::lemma_first_index;
use crate::text::occurrences;
use core::ops::Range;
use vstd::prelude::*;
use vstd::slice::slice_subrange;
use vstd::string::*;
use vstd::utf8::encode_utf8;

verus! {

/// Why a text is not a range.
#[derive(Clone, Copy, Debug, PartialEq, Eq, Structural)]
pub enum RangeError {
    /// An end of the range is not an unsigned number that fits the machine.
    InvalidNumber,
    /// The text holds more than one `-`.
    TooManyParts,
    /// The range starts after its end.
    Descending,
}

/// The range that `text` denotes. A single number stands for the range that
/// starts and ends there; two numbers with a `-` between them give the start
/// and the end.
pub open spec fn range_of(text: Seq<char>) -> Result<(nat, nat), RangeError> {
    let dashes = occurrences(text, '-', text.len() as int);
    let max = usize::MAX as nat;
    if dashes == 0 {
        match unsigned_within(text, max) {
            Some(at) => Ok((at, at)),
            None => Err(RangeError::InvalidNumber),
        }
    } else if dashes > 1 {
        Err(RangeError::TooManyParts)
    } else {
        let dash = first_index(text, '-');
        match unsigned_within(text.take(dash), max) {
            None => Err(RangeError::InvalidNumber),
            Some(start) => match unsigned_within(text.skip(dash + 1), max) {
                None => Err(RangeError::InvalidNumber),
                Some(end) => if start > end {
                    Err(RangeError::Descending)
                } else {
                    Ok((start, end))
                },
            },
        }
    }
}

/// Reads a range of positions from `input`.
pub fn parse_range(input: &str) -> (r: Result<Range<usize>, RangeError>)
    ensures
        match range_of(input@) {
            Ok((start, end)) => r == Ok::<Range<usize>, RangeError>(
                Range { start: start as usize, end: end as usize },
            ),
            Err(e) => r == Err::<Range<usize>, RangeError>(e),
        },
{
    let chars = chars_of(input);
    let n = chars.len();
    let mut dashes: usize = 0;
    let mut dash: usize = n;
    let mut i: usize = 0;
    while i < n
        invariant
            i <= n,
            n == chars.len(),
            chars@ == input@,
            dashes == occurrences(input@, '-', i as int),
            dashes <= i,
            dashes == 0 ==> dash == n,
            dashes > 0 ==> dash < i && dash == first_index(input@, '-'),
        decreases n - i,
    {
        if chars[i] == '-' {
            if dashes == 0 {
                dash = i;
                proof {
                    lemma_first_index(input@, '-', i as int);
                    lemma_first_index(input@, '-', i + 1);
                }
            }
            dashes += 1;
        }
        i += 1;
    }
    let max: u64 = usize::MAX as u64;
    if dashes == 0 {
        assert(chars@.subrange(0, n as int) =~= input@);
        match parse_unsigned_in(chars.as_slice(), 0, n, max) {
            Some(at) => Ok(Range { start: at as usize, end: at as usize }),
            None => Err(RangeError::InvalidNumber),
        }
    } else if dashes > 1 {
        Err(RangeError::TooManyParts)
    } else {
        assert(chars@.subrange(0, dash as int) =~= input@.take(dash as int));
        assert(chars@.subrange(dash + 1, n as int) =~= input@.skip(dash + 1));
        match parse_unsigned_in(chars.as_slice(), 0, dash, max) {
            None => Err(RangeError::InvalidNumber),
            Some(start) => match parse_unsigned_in(chars.as_slice(), dash + 1, n, max) {
                None => Err(RangeError::InvalidNumber),
                Some(end) => if start > end {
                    Err(RangeError::Descending)
                } else {
                    Ok(Range { start: start as usize, end: end as usize })
                },
            },
        }
    }
}

/// Whether a range selects positions that exist: it starts at one or
/// later, and does not end before it starts.
pub open spec fn is_selection(range: Range<usize>) -> bool {
    1 <= range.start <= range.end
}

/// Whether all of `ranges` are selections.
pub open spec fn are_selections(ranges: Seq<Range<usize>>) -> bool {
    forall|i: int| 0 <= i < ranges.len() ==> is_selection(#[trigger] ranges[i])
}

/// The items of `items` at the positions from `range.start` to `range.end`,
/// as far as they exist.
pub open spec fn selected<T>(items: Seq<T>, range: Range<usize>) -> Seq<T> {
    let from = if range.start - 1 <= items.len() {
        range.start - 1
    } else {
        items.len() as int
    };
    let to = if range.end <= items.len() {
        range.end as int
    } else {
        items.len() as int
    };
    items.subrange(from, to)
}

/// The bounds in a sequence of `len` items of what `range` selects.
fn bounds(len: usize, range: &Range<usize>) -> (r: (usize, usize))
    requires
        is_selection(*range),
    ensures
        r.0 <= r.1 <= len,
        r.0 == (if range.start - 1 <= len {
            range.start - 1
        } else {
            len as int
        }),
        r.1 == (if range.end <= len {
            range.end as int
        } else {
            len as int
        }),
{
    let from = if range.start - 1 <= len {
        range.start - 1
    } else {
        len
    };
    let to = if range.end <= len {
        range.end
    } else {
        len
    };
    (from, to)
}

/// The bytes that `ranges` select in a line, as text: for each range in
/// turn the bytes it selects, with the replacement character in place of
/// what is not UTF-8.
pub open spec fn cut_bytes(line: Seq<char>, ranges: Seq<Range<usize>>) -> Seq<char>
    decreases ranges.len(),
{
    if ranges.len() == 0 {
        Seq::empty()
    } else {
        cut_bytes(line, ranges.drop_last()) + lossy_text(selected(encode_utf8(line), ranges.last()))
    }
}

/// The characters that `ranges` select in a line: for each range in turn
/// the characters it selects.
pub open spec fn cut_chars(line: Seq<char>, ranges: Seq<Range<usize>>) -> Seq<char>
    decreases ranges.len(),
{
    if ranges.len() == 0 {
        Seq::empty()
    } else {
        cut_chars(line, ranges.drop_last()) + selected(line, ranges.last())
    }
}

/// The fields of `text`: the parts between the delimiters. A text without a
/// delimiter is one field.
pub open spec fn fields_of(text: Seq<char>, delim: char) -> Seq<Seq<char>>
    decreases text.len(),
    via fields_of_decreases
{
    let at = first_index(text, delim);
    if at >= text.len() {
        seq![text]
    } else {
        seq![text.take(at)] + fields_of(text.skip(at + 1), delim)
    }
}

#[via_fn]
proof fn fields_of_decreases(text: Seq<char>, delim: char) {
    lemma_first_index(text, delim, 0);
}

/// The fields `fields`, each followed by the delimiter.
pub open spec fn joined(fields: Seq<Seq<char>>, delim: char) -> Seq<char>
    decreases fields.len(),
{
    if fields.len() == 0 {
        Seq::empty()
    } else {
        joined(fields.drop_last(), delim) + fields.last() + seq![delim]
    }
}

/// How many delimiters `text` ends with.
pub open spec fn trailing(text: Seq<char>, delim: char) -> int
    decreases text.len(),
{
    if text.len() == 0 || text.last() != delim {
        0
    } else {
        1 + trailing(text.drop_last(), delim)
    }
}

/// `text` without the delimiters at its end.
pub open spec fn without_trailing(text: Seq<char>, delim: char) -> Seq<char> {
    text.take(text.len() - trailing(text, delim))
}

/// The fields that `ranges` select in a line: for each range in turn the
/// fields it selects, with the delimiter between them and none at the end.
pub open spec fn cut_fields(line: Seq<char>, ranges: Seq<Range<usize>>, delim: char) -> Seq<char>
    decreases ranges.len(),
{
    if ranges.len() == 0 {
        Seq::empty()
    } else {
        cut_fields(line, ranges.drop_last(), delim) + without_trailing(
            joined(selected(fields_of(line, delim), ranges.last()), delim),
            delim,
        )
    }
}

/// Selects bytes of `line`.
pub fn select_bytes(line: &str, ranges: &Vec<Range<usize>>) -> (r: String)
    requires
        are_selections(ranges@),
    ensures
        r@ == cut_bytes(line@, ranges@),
{
    let bytes = line.as_bytes();
    let mut out = String::new();
    let mut i: usize = 0;
    assert(ranges@.take(0) =~= Seq::<Range<usize>>::empty());
    while i < ranges.len()
        invariant
            i <= ranges.len(),
            are_selections(ranges@),
            bytes@ == encode_utf8(line@),
            out@ == cut_bytes(line@, ranges@.take(i as int)),
        decreases ranges.len() - i,
    {
        let (from, to) = bounds(bytes.len(), &ranges[i]);
        let part = from_utf8_lossy(slice_subrange(bytes, from, to));
        out.append(part.as_str());
        assert(ranges@.take(i + 1).drop_last() =~= ranges@.take(i as int));
        i += 1;
    }
    assert(ranges@.take(ranges.len() as int) =~= ranges@);
    out
}

/// Selects characters of `line`.
pub fn select_chars(line: &str, ranges: &Vec<Range<usize>>) -> (r: String)
    requires
        are_selections(ranges@),
    ensures
        r@ == cut_chars(line@, ranges@),
{
    let chars = chars_of(line);
    let mut out = String::new();
    let mut i: usize = 0;
    assert(ranges@.take(0) =~= Seq::<Range<usize>>::empty());
    while i < ranges.len()
        invariant
            i <= ranges.len(),
            are_selections(ranges@),
            chars@ == line@,
            out@ == cut_chars(line@, ranges@.take(i as int)),
        decreases ranges.len() - i,
    {
        let (from, to) = bounds(chars.len(), &ranges[i]);
        let part = string_of_range(chars.as_slice(), from, to);
        out.append(part.as_str());
        assert(ranges@.take(i + 1).drop_last() =~= ranges@.take(i as int));
        i += 1;
    }
    assert(ranges@.take(ranges.len() as int) =~= ranges@);
    out
}

/// Splits `text` into its fields.
pub fn split_fields(text: &[char], delim: char) -> (r: Vec<Vec<char>>)
    ensures
        r@.map_values(|field: Vec<char>| field@) == fields_of(text@, delim),
{
    let mut out: Vec<Vec<char>> = Vec::new();
    let mut field: Vec<char> = Vec::new();
    let mut start: usize = 0;
    let mut i: usize = 0;
    let ghost fields = |field: Vec<char>| field@;
    proof {
        assert(text@.skip(0) =~= text@);
        assert(out@.map_values(fields) + fields_of(text@, delim) =~= fields_of(text@, delim));
        assert(field@ =~= text@.subrange(0, 0));
    }
    while i < text.len()
        invariant
            start <= i <= text.len(),
            fields == |field: Vec<char>| field@,
            field@ == text@.subrange(start as int, i as int),
            forall|k: int| start <= k < i ==> text@[k] != delim,
            fields_of(text@, delim) == out@.map_values(fields) + fields_of(
                text@.skip(start as int),
                delim,
            ),
        decreases text.len() - i,
    {
        let c = text[i];
        if c == delim {
            let ghost rest = text@.skip(start as int);
            let ghost before = out@.map_values(fields);
            proof {
                lemma_first_index(rest, delim, 0);
                let at = first_index(rest, delim);
                if at < i - start {
                    assert(rest[at] == text@[start + at]);
                }
                assert(rest[i - start] == delim);
                assert(at == i - start);
                assert(rest.take(at) =~= field@);
                assert(rest.skip(at + 1) =~= text@.skip(i + 1));
            }
            let ghost done = field@;
            out.push(field);
            field = Vec::new();
            start = i + 1;
            proof {
                assert(out@.map_values(fields) =~= before.push(done));
                assert(before + (seq![done] + fields_of(text@.skip(i + 1), delim)) =~= before.push(
                    done,
                ) + fields_of(text@.skip(i + 1), delim));
                assert(field@ =~= text@.subrange(start as int, start as int));
            }
        } else {
            field.push(c);
            assert(field@ =~= text@.subrange(start as int, i + 1));
        }
        i += 1;
    }
    proof {
        let rest = text@.skip(start as int);
        let before = out@.map_values(fields);
        lemma_first_index(rest, delim, 0);
        let at = first_index(rest, delim);
        if at < rest.len() {
            assert(rest[at] == text@[start + at]);
        }
        assert(rest =~= field@);
        assert(before + seq![field@] =~= before.push(field@));
    }
    let ghost before = out@.map_values(fields);
    let ghost last = field@;
    out.push(field);
    assert(out@.map_values(fields) =~= before.push(last));
    out
}

/// Selects fields of `line`.
pub fn select_fields(line: &str, ranges: &Vec<Range<usize>>, delim: char) -> (r: String)
    requires
        are_selections(ranges@),
    ensures
        r@ == cut_fields(line@, ranges@, delim),
{
    let chars = chars_of(line);
    let fields = split_fields(chars.as_slice(), delim);
    let ghost all = fields@.map_values(|field: Vec<char>| field@);
    let mut out = String::new();
    let mut i: usize = 0;
    assert(ranges@.take(0) =~= Seq::<Range<usize>>::empty());
    while i < ranges.len()
        invariant
            i <= ranges.len(),
            are_selections(ranges@),
            all == fields@.map_values(|field: Vec<char>| field@),
            all == fields_of(line@, delim),
            out@ == cut_fields(line@, ranges@.take(i as int), delim),
        decreases ranges.len() - i,
    {
        let (from, to) = bounds(fields.len(), &ranges[i]);
        let ghost chosen = all.subrange(from as int, to as int);
        assert(chosen =~= selected(all, ranges@[i as int]));
        let mut part: Vec<char> = Vec::new();
        let mut k: usize = from;
        assert(chosen.take(0) =~= Seq::<Seq<char>>::empty());
        while k < to
            invariant
                from <= k <= to,
                to <= fields.len(),
                all == fields@.map_values(|field: Vec<char>| field@),
                chosen == all.subrange(from as int, to as int),
                part@ == joined(chosen.take(k - from), delim),
            decreases to - k,
        {
            let field = &fields[k];
            assert(all[k as int] == field@);
            let ghost before = part@;
            let mut j: usize = 0;
            while j < field.len()
                invariant
                    j <= field.len(),
                    part@ == before + field@.take(j as int),
                decreases field.len() - j,
            {
                part.push(field[j]);
                assert(field@.take(j + 1) =~= field@.take(j as int).push(field@[j as int]));
                j += 1;
            }
            part.push(delim);
            proof {
                assert(field@.take(field.len() as int) =~= field@);
                assert(chosen.take(k + 1 - from).drop_last() =~= chosen.take(k - from));
                assert(chosen.take(k + 1 - from).last() == field@);
                assert(part@ =~= before + field@ + seq![delim]);
            }
            k += 1;
        }
        assert(chosen.take(to - from) =~= chosen);
        let mut end: usize = part.len();
        assert(part@.take(end as int) =~= part@);
        while end > 0 && part[end - 1] == delim
            invariant
                end <= part.len(),
                trailing(part@, delim) == (part.len() - end) + trailing(
                    part@.take(end as int),
                    delim,
                ),
            decreases end,
        {
            assert(part@.take(end as int).drop_last() =~= part@.take(end - 1));
            end -= 1;
        }
        let text = string_of_range(part.as_slice(), 0, end);
        assert(text@ =~= without_trailing(part@, delim));
        out.append(text.as_str());
        assert(ranges@.take(i + 1).drop_last() =~= ranges@.take(i as int));
        i += 1;
    }
    assert(ranges@.take(ranges.len() as int) =~= ranges@);
    out
}

/// Which parts to cut out of the lines of which inputs.
#[derive(Debug)]
pub struct Config {
    /// The names of the inputs; `-` stands for the standard input.
    pub files: Vec<String>,
    /// The character that separates fields.
    pub delim: char,
    /// The fields to select.
    pub fields: Option<Vec<Range<usize>>>,
    /// The bytes to select.
    pub bytes: Option<Vec<Range<usize>>>,
    /// The characters to select.
    pub chars: Option<Vec<Range<usize>>>,
}

/// Whether `ranges`, if there are any, are selections.
pub open spec fn usable(ranges: Option<Vec<Range<usize>>>) -> bool {
    match ranges {
        Some(list) => are_selections(list@),
        None => true,
    }
}

impl Config {
    /// Every range of the configuration is a selection.
    pub open spec fn valid(&self) -> bool {
        usable(self.fields) && usable(self.bytes) && usable(self.chars)
    }

    /// Tells whether every range of the configuration is a selection.
    pub fn is_valid(&self) -> (r: bool)
        ensures
            r == self.valid(),
    {
        all_selections(&self.fields) && all_selections(&self.bytes) && all_selections(&self.chars)
    }
}

/// Tells whether `ranges`, if there are any, are selections.
pub fn all_selections(ranges: &Option<Vec<Range<usize>>>) -> (r: bool)
    ensures
        r == usable(*ranges),
{
    match ranges {
        None => true,
        Some(list) => {
            let mut i: usize = 0;
            while i < list.len()
                invariant
                    i <= list.len(),
                    *ranges == Some(*list),
                    forall|k: int| 0 <= k < i ==> is_selection(#[trigger] list@[k]),
                decreases list.len() - i,
            {
                if !(1 <= list[i].start && list[i].start <= list[i].end) {
                    assert(!is_selection(list@[i as int]));
                    return false;
                }
                i += 1;
            }
            true
        },
    }
}

/// What is written for a line with the content `content`: a line for the
/// bytes, one for the characters and one for the fields, as far as they are
/// asked for.
pub open spec fn line_text(content: Seq<char>, config: &Config) -> Seq<char> {
    let for_bytes = match config.bytes {
        Some(ranges) => cut_bytes(content, ranges@) + seq!['\n'],
        None => Seq::empty(),
    };
    let for_chars = match config.chars {
        Some(ranges) => cut_chars(content, ranges@) + seq!['\n'],
        None => Seq::empty(),
    };
    let for_fields = match config.fields {
        Some(ranges) => cut_fields(content, ranges@, config.delim) + seq!['\n'],
        None => Seq::empty(),
    };
    for_bytes + for_chars + for_fields
}

/// What is written for lines that were read as `lines`.
pub open spec fn lines_text(lines: Seq<Seq<char>>, config: &Config) -> Seq<char>
    decreases lines.len(),
{
    if lines.len() == 0 {
        Seq::empty()
    } else {
        lines_text(lines.drop_last(), config) + line_text(without_line_end(lines.last()), config)
    }
}

/// What has been written, and whether every input so far was read to its
/// end.
pub struct State {
    pub output: Seq<char>,
    pub complete: bool,
}

/// The state after the first `n` inputs. An input that could not be opened
/// is passed over; an input that holds a line that is not UTF-8 ends the run
/// at that line.
pub open spec fn after_inputs(config: &Config, inputs: Seq<Input>, n: int) -> State
    decreases n,
{
    if n <= 0 {
        State { output: Seq::empty(), complete: true }
    } else {
        let before = after_inputs(config, inputs, n - 1);
        if !before.complete {
            before
        } else {
            match inputs[n - 1].content {
                None => before,
                Some(file) => State {
                    output: before.output + lines_text(lines_of(readable_lines(file@)), config),
                    complete: lines_valid(file@),
                },
            }
        }
    }
}

/// Appends what is written for one line to `out`.
fn write_line(out: &mut String, content: &str, config: &Config)
    requires
        config.valid(),
    ensures
        final(out)@ == old(out)@ + line_text(content@, config),
{
    proof {
        reveal_strlit("\n");
        assert("\n"@ =~= seq!['\n']);
    }
    if let Some(ranges) = &config.bytes {
        let part = select_bytes(content, ranges);
        out.append(part.as_str());
        out.append("\n");
    }
    if let Some(ranges) = &config.chars {
        let part = select_chars(content, ranges);
        out.append(part.as_str());
        out.append("\n");
    }
    if let Some(ranges) = &config.fields {
        let part = select_fields(content, ranges, config.delim);
        out.append(part.as_str());
        out.append("\n");
    }
    assert(out@ =~= old(out)@ + line_text(content@, config));
}

/// Cuts the parts that `config` selects out of the lines of `inputs`.
/// Returns what is written, and whether every input was read to its end.
pub fn run(config: &Config, inputs: &Vec<Input>) -> (r: (String, bool))
    requires
        config.valid(),
    ensures
        r.0@ == after_inputs(config, inputs@, inputs.len() as int).output,
        r.1 == after_inputs(config, inputs@, inputs.len() as int).complete,
{
    let mut out = String::new();
    let mut i: usize = 0;
    while i < inputs.len()
        invariant
            i <= inputs.len(),
            config.valid(),
            after_inputs(config, inputs@, i as int).complete,
            out@ == after_inputs(config, inputs@, i as int).output,
        decreases inputs.len() - i,
    {
        match &inputs[i].content {
            None => {},
            Some(file) => {
                let (text, complete) = read_valid_lines(file.as_slice());
                let lines = split_lines(text.as_str());
                let ghost all = texts(lines@);
                let ghost before = out@;
                let mut k: usize = 0;
                assert(all.take(0) =~= Seq::<Seq<char>>::empty());
                assert(out@ =~= before + lines_text(all.take(0), config));
                while k < lines.len()
                    invariant
                        k <= lines.len(),
                        config.valid(),
                        all == texts(lines@),
                        out@ == before + lines_text(all.take(k as int), config),
                    decreases lines.len() - k,
                {
                    let chars = chars_of(lines[k].as_str());
                    assert(all[k as int] == chars@);
                    let len = content_len(chars.as_slice());
                    let content = string_of_range(chars.as_slice(), 0, len);
                    assert(content@ =~= without_line_end(chars@));
                    let ghost shown = out@;
                    write_line(&mut out, content.as_str(), config);
                    proof {
                        assert(all.take(k + 1).drop_last() =~= all.take(k as int));
                        assert(all.take(k + 1).last() == chars@);
                        assert(out@ =~= before + lines_text(all.take(k + 1), config));
                    }
                    k += 1;
                }
                assert(all.take(lines.len() as int) =~= all);
                if !complete {
                    proof {
                        lemma_run_ended(config, inputs@, i + 1, inputs.len() as int);
                    }
                    return (out, false);
                }
            },
        }
        i += 1;
    }
    (out, true)
}

/// Once a run has ended, later inputs change nothing.
proof fn lemma_run_ended(config: &Config, inputs: Seq<Input>, k: int, n: int)
    requires
        0 <= k <= n,
        !after_inputs(config, inputs, k).complete,
    ensures
        after_inputs(config, inputs, n) == after_inputs(config, inputs, k),
    decreases n - k,
{
    if k < n {
        lemma_run_ended(config, inputs, k, n - 1);
    }
}

} // verus!
