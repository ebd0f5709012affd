//! Finding the lines of an input that a pattern matches.

use crate::pattern::found_in;
use crate::pattern::Pattern;
use crate::text::chars_of;
use crate::text::content_len;
use crate::text::decimal;
use crate::text::decimal_string;
use crate::text::lines_of;
use crate::text::lines_valid;
use crate::text::read_valid_lines;
use crate::text::readable_lines;
use crate::text::split_lines;
use crate::text::string_of_range;
use crate::text::texts;
use crate::text::without_line_end;
use vstd::prelude::*;
use vstd::string::*;

verus! {

/// What to look for, and where.
#[derive(Debug)]
pub struct Config {
    /// The pattern to look for.
    pub pattern: String,
    /// The names of the inputs; `-` stands for the standard input.
    pub files: Vec<String>,
    /// Match letters in either case.
    pub ignore_case: bool,
    /// Show how many lines match, in place of the lines.
    pub count: bool,
    /// Search the files below the directories that are named.
    pub recursive: bool,
}

/// For each of `lines`, whether `pattern` matches it.
pub open spec fn hits_of(pattern: &Pattern, lines: Seq<Seq<char>>) -> Seq<bool> {
    lines.map_values(|line: Seq<char>| found_in(pattern.source(), pattern.ignores_case(), line))
}

/// The lines among the first `n` of `lines` whose flag in `hits` is set,
/// each after `prefix`.
pub open spec fn marked_lines(lines: Seq<Seq<char>>, hits: Seq<bool>, prefix: Seq<char>, n: int)
    -> Seq<char>
    decreases n,
{
    if n <= 0 {
        Seq::empty()
    } else if hits[n - 1] {
        marked_lines(lines, hits, prefix, n - 1) + prefix + lines[n - 1]
    } else {
        marked_lines(lines, hits, prefix, n - 1)
    }
}

/// How many of the first `n` flags of `hits` are set.
pub open spec fn hit_count(hits: Seq<bool>, n: int) -> nat
    decreases n,
{
    if n <= 0 {
        0
    } else {
        hit_count(hits, n - 1) + if hits[n - 1] {
            1nat
        } else {
            0nat
        }
    }
}

/// The lines without their ends.
pub open spec fn contents_of(lines: Seq<Seq<char>>) -> Seq<Seq<char>> {
    lines.map_values(|line: Seq<char>| without_line_end(line))
}

/// What precedes a match of the input called `name`: the name and a colon,
/// or nothing where the name is not shown.
pub open spec fn prefix_of(name: Seq<char>, shown: bool) -> Seq<char> {
    if shown {
        name + seq![':']
    } else {
        Seq::empty()
    }
}

/// The prefix for the matches of the input called `name`.
pub fn format_prefix(name: &str, shown: bool) -> (r: String)
    ensures
        r@ == prefix_of(name@, shown),
{
    let mut out = String::new();
    if shown {
        out.append(name);
        proof {
            reveal_strlit(":");
            assert(":"@ =~= seq![':']);
        }
        out.append(":");
    }
    assert(out@ =~= prefix_of(name@, shown));
    out
}

/// Whether the names of the inputs are shown: they are where more than one
/// input is named, and for every file found below a directory.
pub fn shows_names(number_of_files: usize, below_directory: bool) -> (r: bool)
    ensures
        r == (below_directory || number_of_files > 1),
{
    below_directory || number_of_files > 1
}

/// Tells for each of `lines` whether `pattern` matches it.
pub fn match_lines(pattern: &Pattern, lines: &Vec<String>) -> (r: Vec<bool>)
    ensures
        r@ == hits_of(pattern, texts(lines@)),
{
    let mut out: Vec<bool> = Vec::new();
    let mut i: usize = 0;
    while i < lines.len()
        invariant
            i <= lines.len(),
            out@ == hits_of(pattern, texts(lines@)).take(i as int),
        decreases lines.len() - i,
    {
        let hit = pattern.is_match(lines[i].as_str());
        out.push(hit);
        assert(out@ =~= hits_of(pattern, texts(lines@)).take(i + 1));
        i += 1;
    }
    assert(out@ =~= hits_of(pattern, texts(lines@)));
    out
}

/// Writes the lines whose flag in `hits` is set, each after `prefix`.
pub fn select_lines(lines: &Vec<String>, hits: &Vec<bool>, prefix: &str) -> (r: String)
    requires
        hits.len() == lines.len(),
    ensures
        r@ == marked_lines(texts(lines@), hits@, prefix@, lines.len() as int),
{
    let mut out = String::new();
    let mut i: usize = 0;
    while i < lines.len()
        invariant
            i <= lines.len(),
            hits.len() == lines.len(),
            out@ == marked_lines(texts(lines@), hits@, prefix@, i as int),
        decreases lines.len() - i,
    {
        if hits[i] {
            let ghost before = out@;
            out.append(prefix);
            out.append(lines[i].as_str());
            assert(texts(lines@)[i as int] == lines@[i as int]@);
            assert(out@ =~= before + prefix@ + lines@[i as int]@);
        }
        i += 1;
    }
    out
}

/// Counts the flags that are set.
pub fn count_hits(hits: &Vec<bool>) -> (r: usize)
    ensures
        r == hit_count(hits@, hits.len() as int),
{
    let mut total: usize = 0;
    let mut i: usize = 0;
    while i < hits.len()
        invariant
            i <= hits.len(),
            total == hit_count(hits@, i as int),
            total <= i,
        decreases hits.len() - i,
    {
        if hits[i] {
            total += 1;
        }
        i += 1;
    }
    total
}

/// The lines of `file` that `pattern` matches, each with its line feed and
/// after `prefix`. The lines are read up to the first that is not UTF-8.
pub fn matches_in_file(pattern: &Pattern, file: &[u8], prefix: &str) -> (r: String)
    ensures
        r@ == marked_lines(
            lines_of(readable_lines(file@)),
            hits_of(pattern, lines_of(readable_lines(file@))),
            prefix@,
            lines_of(readable_lines(file@)).len() as int,
        ),
{
    let (text, _) = read_valid_lines(file);
    let lines = split_lines(text.as_str());
    let hits = match_lines(pattern, &lines);
    select_lines(&lines, &hits, prefix)
}

/// The lines of `text` without their ends.
pub fn line_contents(text: &str) -> (r: Vec<String>)
    ensures
        texts(r@) == contents_of(lines_of(text@)),
{
    let lines = split_lines(text);
    let mut out: Vec<String> = Vec::new();
    let mut i: usize = 0;
    while i < lines.len()
        invariant
            i <= lines.len(),
            texts(lines@) == lines_of(text@),
            texts(out@) == contents_of(lines_of(text@)).take(i as int),
        decreases lines.len() - i,
    {
        let chars = chars_of(lines[i].as_str());
        assert(texts(lines@)[i as int] == chars@);
        let len = content_len(chars.as_slice());
        let content = string_of_range(chars.as_slice(), 0, len);
        assert(content@ =~= without_line_end(chars@));
        let ghost before = texts(out@);
        let ghost shown = content@;
        out.push(content);
        proof {
            assert(texts(out@) =~= before.push(shown));
            assert(lines_of(text@)[i as int] == chars@);
            assert(contents_of(lines_of(text@))[i as int] == shown);
            assert(contents_of(lines_of(text@)).take(i + 1) =~= contents_of(
                lines_of(text@),
            ).take(i as int).push(shown));
        }
        i += 1;
    }
    assert(texts(out@) =~= contents_of(lines_of(text@)));
    out
}

/// The number of lines of `file` that `pattern` matches, after `prefix` and
/// with a line feed. The lines are matched without their ends. Every line
/// of the file must be UTF-8.
pub fn number_of_matches_in_file(pattern: &Pattern, file: &[u8], prefix: &str) -> (r: String)
    requires
        lines_valid(file@),
    ensures
        r@ == prefix@ + decimal(
            hit_count(
                hits_of(pattern, contents_of(lines_of(readable_lines(file@)))),
                lines_of(readable_lines(file@)).len() as int,
            ),
        ) + seq!['\n'],
{
    let (text, _) = read_valid_lines(file);
    let lines = line_contents(text.as_str());
    let hits = match_lines(pattern, &lines);
    let total = count_hits(&hits);
    let mut out = String::from_str(prefix);
    let numeral = decimal_string(total as u128);
    out.append(numeral.as_str());
    proof {
        reveal_strlit("\n");
        assert("\n"@ =~= seq!['\n']);
    }
    out.append("\n");
    out
}

/// Tells whether every line of `file` is UTF-8.
pub fn is_text(file: &[u8]) -> (r: bool)
    ensures
        r == lines_valid(file@),
{
    read_valid_lines(file).1
}

} // verus!
