//! Folding runs of equal lines into one.
//!
//! Two lines are equal if they agree once the white space at both ends is
//! taken off. A run of equal lines is shown by its first line, as that line
//! was read.

use crate::text::align_right;
use crate::text::chars_of;
use crate::text::decimal;
use crate::text::decimal_string;
use crate::text::is_space;
use crate::text::is_whitespace;
use crate::text::lines_of;
use crate::text::lines_valid;
use crate::text::pad_left;
use crate::text::read_valid_lines;
use crate::text::readable_lines;
use crate::text::split_lines;
use crate::text::texts;
use vstd::prelude::*;
use vstd::slice::slice_subrange;
use vstd::string::*;

verus! {

/// What to read, where to write, and whether to count.
#[derive(Debug)]
pub struct Config {
    /// The name of the input; `-` stands for the standard input.
    pub input_file: String,
    /// The name of the output; without one, the standard output.
    pub output_file: Option<String>,
    /// Show how often each line occurs.
    pub count: bool,
}

/// How many characters of white space `text` starts with.
pub open spec fn leading_space(text: Seq<char>) -> int
    decreases text.len(),
{
    if text.len() == 0 || !is_space(text[0]) {
        0
    } else {
        1 + leading_space(text.drop_first())
    }
}

/// How many characters of white space `text` ends with.
pub open spec fn trailing_space(text: Seq<char>) -> int
    decreases text.len(),
{
    if text.len() == 0 || !is_space(text.last()) {
        0
    } else {
        1 + trailing_space(text.drop_last())
    }
}

/// `text` without the white space at its ends.
pub open spec fn trimmed(text: Seq<char>) -> Seq<char> {
    let rest = text.skip(leading_space(text));
    rest.take(rest.len() - trailing_space(rest))
}

/// Where the white space at the start of `text` ends.
fn trim_start(text: &[char]) -> (r: usize)
    ensures
        r == leading_space(text@),
        r <= text.len(),
{
    let mut i: usize = 0;
    assert(text@.skip(0) =~= text@);
    while i < text.len() && is_whitespace(text[i])
        invariant
            i <= text.len(),
            leading_space(text@) == i + leading_space(text@.skip(i as int)),
        decreases text.len() - i,
    {
        assert(text@.skip(i as int).drop_first() =~= text@.skip(i + 1));
        i += 1;
    }
    i
}

/// Where the white space at the end of `text` starts.
fn trim_end(text: &[char]) -> (r: usize)
    ensures
        r == text.len() - trailing_space(text@),
        r <= text.len(),
{
    let mut i: usize = text.len();
    assert(text@.take(i as int) =~= text@);
    while i > 0 && is_whitespace(text[i - 1])
        invariant
            i <= text.len(),
            trailing_space(text@) == (text.len() - i) + trailing_space(text@.take(i as int)),
        decreases i,
    {
        assert(text@.take(i as int).drop_last() =~= text@.take(i - 1));
        i -= 1;
    }
    i
}

/// The part of `text` between the white space at its ends.
fn trim(text: &[char]) -> (r: &[char])
    ensures
        r@ == trimmed(text@),
{
    let from = trim_start(text);
    let rest = slice_subrange(text, from, text.len());
    assert(rest@ =~= text@.skip(from as int));
    let to = trim_end(rest);
    let out = slice_subrange(rest, 0, to);
    assert(out@ =~= rest@.take(to as int));
    out
}

/// Tells whether two texts hold the same characters.
pub fn same_chars(a: &[char], b: &[char]) -> (r: bool)
    ensures
        r == (a@ == b@),
{
    if a.len() != b.len() {
        return false;
    }
    let mut i: usize = 0;
    while i < a.len()
        invariant
            i <= a.len(),
            a.len() == b.len(),
            forall|k: int| 0 <= k < i ==> a@[k] == b@[k],
        decreases a.len() - i,
    {
        if a[i] != b[i] {
            return false;
        }
        i += 1;
    }
    assert(a@ =~= b@);
    true
}

/// Tells whether two lines are equal but for the white space at their ends.
pub fn same_line(a: &[char], b: &[char]) -> (r: bool)
    ensures
        r == (trimmed(a@) == trimmed(b@)),
{
    same_chars(trim(a), trim(b))
}

/// The runs of equal lines in what follows a run that has started: `lines`
/// are the lines still to come, `current` is the first line of the run and
/// `count` the number of its lines so far. Each run is given by the number
/// of its lines and by its first line.
pub open spec fn runs_from(lines: Seq<Seq<char>>, current: Seq<char>, count: nat) -> Seq<
    (nat, Seq<char>),
>
    decreases lines.len(),
{
    if lines.len() == 0 {
        seq![(count, current)]
    } else if trimmed(lines[0]) == trimmed(current) {
        runs_from(lines.drop_first(), current, count + 1)
    } else {
        seq![(count, current)] + runs_from(lines.drop_first(), lines[0], 1)
    }
}

/// The runs of equal lines in `lines`.
pub open spec fn runs(lines: Seq<Seq<char>>) -> Seq<(nat, Seq<char>)> {
    if lines.len() == 0 {
        Seq::empty()
    } else {
        runs_from(lines.drop_first(), lines[0], 1)
    }
}

/// What is written for a run: its first line, after the number of its lines
/// in a field of four characters and a space if lines are counted.
pub open spec fn entry_text(count: nat, line: Seq<char>, counted: bool) -> Seq<char> {
    if counted {
        align_right(decimal(count), 4) + seq![' '] + line
    } else {
        line
    }
}

/// What is written for a sequence of runs.
pub open spec fn render(entries: Seq<(nat, Seq<char>)>, counted: bool) -> Seq<char>
    decreases entries.len(),
{
    if entries.len() == 0 {
        Seq::empty()
    } else {
        render(entries.drop_last(), counted) + entry_text(
            entries.last().0,
            entries.last().1,
            counted,
        )
    }
}

/// What is written for the input `file`: its runs of equal lines. Where the
/// input is UTF-8 only up to some line, the runs of the lines before that
/// line are written, but for the last of them.
pub open spec fn report(file: Seq<u8>, counted: bool) -> Seq<char> {
    let entries = runs(lines_of(readable_lines(file)));
    if lines_valid(file) || entries.len() == 0 {
        render(entries, counted)
    } else {
        render(entries.drop_last(), counted)
    }
}

/// Appends what is written for one run to `out`.
fn push_entry(out: &mut String, count: usize, line: &str, counted: bool)
    ensures
        final(out)@ == old(out)@ + entry_text(count as nat, line@, counted),
{
    if counted {
        let numeral = decimal_string(count as u128);
        let field = pad_left(numeral.as_str(), 4);
        out.append(field.as_str());
        proof {
            reveal_strlit(" ");
            assert(" "@ =~= seq![' ']);
        }
        out.append(" ");
    }
    out.append(line);
    assert(out@ =~= old(out)@ + entry_text(count as nat, line@, counted));
}

/// Folds the runs of equal lines of `file`. Returns what is written, and
/// whether the input was read to its end; it is not if it holds a line that
/// is not UTF-8.
pub fn run(config: &Config, file: &[u8]) -> (r: (String, bool))
    ensures
        r.0@ == report(file@, config.count),
        r.1 == lines_valid(file@),
{
    let (text, complete) = read_valid_lines(file);
    let lines = split_lines(text.as_str());
    let ghost all = texts(lines@);
    let mut out = String::new();
    if lines.len() == 0 {
        return (out, complete);
    }
    let mut current: usize = 0;
    let mut current_chars = chars_of(lines[0].as_str());
    let mut count: usize = 1;
    let mut i: usize = 1;
    let ghost mut done = Seq::<(nat, Seq<char>)>::empty();
    proof {
        assert(all.skip(1) =~= all.drop_first());
        assert(done + runs(all) =~= runs(all));
    }
    while i < lines.len()
        invariant
            1 <= i <= lines.len(),
            current < i,
            1 <= count <= i,
            all == texts(lines@),
            current_chars@ == all[current as int],
            runs(all) == done + runs_from(all.skip(i as int), all[current as int], count as nat),
            out@ == render(done, config.count),
        decreases lines.len() - i,
    {
        let next = chars_of(lines[i].as_str());
        assert(all[i as int] == lines@[i as int]@);
        assert(all.skip(i as int).drop_first() =~= all.skip(i + 1));
        assert(all.skip(i as int)[0] == all[i as int]);
        if same_line(current_chars.as_slice(), next.as_slice()) {
            count += 1;
        } else {
            let ghost entry = (count as nat, all[current as int]);
            assert(all[current as int] == lines@[current as int]@);
            push_entry(&mut out, count, lines[current].as_str(), config.count);
            proof {
                let rest = runs_from(all.skip(i + 1), all[i as int], 1);
                assert(done + (seq![entry] + rest) =~= done.push(entry) + rest);
                assert(done.push(entry).drop_last() =~= done);
                done = done.push(entry);
            }
            current = i;
            current_chars = next;
            count = 1;
        }
        i += 1;
    }
    let ghost entry = (count as nat, all[current as int]);
    proof {
        assert(runs(all) =~= done.push(entry));
        assert(done.push(entry).drop_last() =~= done);
    }
    if complete {
        assert(all[current as int] == lines@[current as int]@);
        push_entry(&mut out, count, lines[current].as_str(), config.count);
    }
    (out, complete)
}

} // verus!
