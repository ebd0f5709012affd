//! Counting the lines, words, characters and bytes of a text.

use crate::text::align_right;
use crate::text::chars_of;
use crate::text::decimal;
use crate::text::decimal_string;
use crate::text::from_utf8;
use crate::text::is_space;
use crate::text::is_whitespace;
use crate::text::pad_left;
use crate::text::texts;
use crate::text::Input;
use vstd::prelude::*;
use vstd::string::*;
use vstd::utf8::decode_utf8;
use vstd::utf8::encode_utf8;
use vstd::utf8::encode_utf8_decode_utf8;
use vstd::utf8::valid_utf8;

verus! {

/// How many of the first `n` characters of `text` are line feeds.
pub open spec fn newlines(text: Seq<char>, n: int) -> nat
    decreases n,
{
    if n <= 0 {
        0
    } else {
        newlines(text, n - 1) + if text[n - 1] == '\n' {
            1nat
        } else {
            0nat
        }
    }
}

/// The number of lines of `text`. A line ends with a line feed; what follows
/// the last line feed is a line too, unless it is empty.
pub open spec fn line_count(text: Seq<char>) -> nat {
    newlines(text, text.len() as int) + if text.len() > 0 && text.last() != '\n' {
        1nat
    } else {
        0nat
    }
}

/// Whether a word starts at index `i` of `text`: the character there is no
/// white space, and it is the first of the text or follows white space.
pub open spec fn word_starts_at(text: Seq<char>, i: int) -> bool {
    0 <= i < text.len() && !is_space(text[i]) && (i == 0 || is_space(text[i - 1]))
}

/// How many words start among the first `n` characters of `text`.
pub open spec fn word_starts(text: Seq<char>, n: int) -> nat
    decreases n,
{
    if n <= 0 {
        0
    } else {
        word_starts(text, n - 1) + if word_starts_at(text, n - 1) {
            1nat
        } else {
            0nat
        }
    }
}

/// The number of words of `text`: the maximal runs of characters that are
/// no white space.
pub open spec fn word_count(text: Seq<char>) -> nat {
    word_starts(text, text.len() as int)
}

/// No more line feeds than characters.
proof fn lemma_newlines_bound(text: Seq<char>, n: int)
    requires
        0 <= n,
    ensures
        newlines(text, n) <= n,
    decreases n,
{
    if n > 0 {
        lemma_newlines_bound(text, n - 1);
    }
}

/// Counts the lines, the words, the characters and the bytes of `text`, in
/// this order.
pub fn count(text: &str) -> (r: (usize, usize, usize, usize))
    ensures
        r.0 == line_count(text@),
        r.1 == word_count(text@),
        r.2 == text@.len(),
        r.3 == text.spec_bytes().len(),
{
    let chars = chars_of(text);
    let mut lines: usize = 0;
    let mut words: usize = 0;
    let mut after_space = true;
    let mut i: usize = 0;
    while i < chars.len()
        invariant
            i <= chars.len(),
            chars@ == text@,
            lines == newlines(text@, i as int),
            words == word_starts(text@, i as int),
            lines <= i,
            words <= i,
            after_space == (i == 0 || is_space(text@[i - 1])),
        decreases chars.len() - i,
    {
        let c = chars[i];
        let space = is_whitespace(c);
        if !space && after_space {
            words += 1;
        }
        if c == '\n' {
            lines += 1;
        }
        after_space = space;
        i += 1;
    }
    if chars.len() > 0 && chars[chars.len() - 1] != '\n' {
        proof {
            lemma_newlines_bound(text@, chars.len() - 1);
        }
        lines += 1;
    }
    (lines, words, chars.len(), text.as_bytes().len())
}

/// Which counts to report, and for which inputs.
#[derive(Debug)]
pub struct Config {
    /// The names of the inputs; `-` stands for the standard input.
    pub files: Vec<String>,
    /// Report the number of lines.
    pub lines: bool,
    /// Report the number of words.
    pub words: bool,
    /// Report the number of characters.
    pub chars: bool,
    /// Report the number of bytes.
    pub bytes: bool,
}

/// The counts of a text, or the sums of the counts of several.
pub struct Tally {
    pub lines: nat,
    pub words: nat,
    pub chars: nat,
    pub bytes: nat,
}

/// The counts of one input, or the sums of the counts of several: lines,
/// words, characters, bytes.
#[derive(Clone, Copy, Debug, PartialEq, Eq)]
pub struct Counts {
    pub lines: u128,
    pub words: u128,
    pub chars: u128,
    pub bytes: u128,
}

impl View for Counts {
    type V = Tally;

    open spec fn view(&self) -> Tally {
        Tally {
            lines: self.lines as nat,
            words: self.words as nat,
            chars: self.chars as nat,
            bytes: self.bytes as nat,
        }
    }
}

/// The counts of `text`.
pub open spec fn tally_of(text: Seq<char>) -> Tally {
    Tally {
        lines: line_count(text),
        words: word_count(text),
        chars: text.len(),
        bytes: encode_utf8(text).len(),
    }
}

/// The sums of two tallies.
pub open spec fn tally_sum(a: Tally, b: Tally) -> Tally {
    Tally {
        lines: a.lines + b.lines,
        words: a.words + b.words,
        chars: a.chars + b.chars,
        bytes: a.bytes + b.bytes,
    }
}

/// The counts of `text`, as a value of `Counts`.
pub fn counts(text: &str) -> (r: Counts)
    ensures
        r@ == tally_of(text@),
        r.lines <= usize::MAX,
        r.words <= usize::MAX,
        r.chars <= usize::MAX,
        r.bytes <= usize::MAX,
{
    let c = count(text);
    Counts { lines: c.0 as u128, words: c.1 as u128, chars: c.2 as u128, bytes: c.3 as u128 }
}

/// One count of a report: the numeral in a field of eight characters, or
/// nothing if the count is not asked for.
pub open spec fn field(shown: bool, n: nat) -> Seq<char> {
    if shown {
        align_right(decimal(n), 8)
    } else {
        Seq::empty()
    }
}

/// The counts of a report line, each in its field, in the order lines,
/// words, characters, bytes.
pub open spec fn fields(counts: Tally, config: &Config) -> Seq<char> {
    field(config.lines, counts.lines) + field(config.words, counts.words) + field(
        config.chars,
        counts.chars,
    ) + field(config.bytes, counts.bytes)
}

/// The report line of the input called `name`: the counts, then a space and
/// the name, unless the input is the standard input.
pub open spec fn report_line(counts: Tally, config: &Config, name: Seq<char>) -> Seq<char> {
    if name == seq!['-'] {
        fields(counts, config)
    } else {
        fields(counts, config) + seq![' '] + name
    }
}

/// The last line of a report on several inputs: the sums of the counts.
pub open spec fn total_line(totals: Tally, config: &Config) -> Seq<char> {
    fields(totals, config) + seq![' ', 't', 'o', 't', 'a', 'l']
}

/// Appends the field of one count to `out`.
fn push_field(out: &mut String, shown: bool, n: u128)
    ensures
        final(out)@ == old(out)@ + field(shown, n as nat),
{
    if shown {
        let numeral = decimal_string(n);
        let padded = pad_left(numeral.as_str(), 8);
        out.append(padded.as_str());
    } else {
        assert(out@ =~= old(out)@ + field(shown, n as nat));
    }
}

/// The fields of the counts that `config` asks for.
pub fn format_fields(counts: Counts, config: &Config) -> (r: String)
    ensures
        r@ == fields(counts@, config),
{
    let mut out = String::new();
    push_field(&mut out, config.lines, counts.lines);
    push_field(&mut out, config.words, counts.words);
    push_field(&mut out, config.chars, counts.chars);
    push_field(&mut out, config.bytes, counts.bytes);
    assert(out@ =~= fields(counts@, config));
    out
}

/// The report line for the input called `name`.
pub fn format_counts(counts: Counts, config: &Config, name: &str) -> (r: String)
    ensures
        r@ == report_line(counts@, config, name@),
{
    let mut out = format_fields(counts, config);
    let stdin = name.unicode_len() == 1 && name.get_char(0) == '-';
    proof {
        if stdin {
            assert(name@ =~= seq!['-']);
        }
        reveal_strlit(" ");
        assert(" "@ =~= seq![' ']);
    }
    if !stdin {
        out.append(" ");
        out.append(name);
    }
    out
}

/// The line of totals.
pub fn format_total(totals: Counts, config: &Config) -> (r: String)
    ensures
        r@ == total_line(totals@, config),
{
    let mut out = format_fields(totals, config);
    proof {
        reveal_strlit(" total");
        assert(" total"@ =~= seq![' ', 't', 'o', 't', 'a', 'l']);
    }
    out.append(" total");
    out
}

impl Config {
    /// Whether no count is asked for.
    pub open spec fn asks_nothing(&self) -> bool {
        !self.lines && !self.words && !self.chars && !self.bytes
    }

    /// Where no count is asked for, asks for lines, words and bytes; leaves
    /// every other configuration as it is.
    pub fn with_defaults(self) -> (r: Config)
        ensures
            r.files == self.files,
            self.asks_nothing() ==> r.lines && r.words && !r.chars && r.bytes,
            !self.asks_nothing() ==> r.lines == self.lines && r.words == self.words && r.chars
                == self.chars && r.bytes == self.bytes,
    {
        if !self.lines && !self.words && !self.chars && !self.bytes {
            Config { files: self.files, lines: true, words: true, chars: false, bytes: true }
        } else {
            self
        }
    }
}

/// The report lines so far, the sums of the counts so far, and whether
/// every input so far was text.
pub struct State {
    pub lines: Seq<Seq<char>>,
    pub totals: Tally,
    pub complete: bool,
}

/// The state after the first `n` inputs. An input that could not be opened
/// is passed over; an input that is not UTF-8 ends the run.
pub open spec fn after_inputs(config: &Config, inputs: Seq<Input>, n: int) -> State
    decreases n,
{
    if n <= 0 {
        State {
            lines: Seq::empty(),
            totals: Tally { lines: 0, words: 0, chars: 0, bytes: 0 },
            complete: true,
        }
    } else {
        let before = after_inputs(config, inputs, n - 1);
        if !before.complete {
            before
        } else {
            match inputs[n - 1].content {
                None => before,
                Some(file) => if valid_utf8(file@) {
                    let tally = tally_of(decode_utf8(file@));
                    State {
                        lines: before.lines.push(report_line(tally, config, inputs[n - 1].name@)),
                        totals: tally_sum(before.totals, tally),
                        complete: true,
                    }
                } else {
                    State { lines: before.lines, totals: before.totals, complete: false }
                },
            }
        }
    }
}

/// The whole report: a line for each input and, where there is more than
/// one input and all were text, a last line with the sums.
pub open spec fn report(config: &Config, inputs: Seq<Input>) -> Seq<Seq<char>> {
    let end = after_inputs(config, inputs, inputs.len() as int);
    if end.complete && inputs.len() > 1 {
        end.lines.push(total_line(end.totals, config))
    } else {
        end.lines
    }
}

/// Once a run has ended, later inputs change nothing.
proof fn lemma_run_ended(config: &Config, inputs: Seq<Input>, k: int, n: int)
    requires
        0 <= k <= n,
        !after_inputs(config, inputs, k).complete,
    ensures
        after_inputs(config, inputs, n) == after_inputs(config, inputs, k),
    decreases n - k,
{
    if k < n {
        lemma_run_ended(config, inputs, k, n - 1);
    }
}

/// Reports the counts of `inputs`. An input that could not be opened has
/// no line in the report and adds nothing to the sums. Returns the lines of
/// the report, and whether every input was text; an input that is not UTF-8
/// ends the run before its line.
pub fn run(config: &Config, inputs: &Vec<Input>) -> (r: (Vec<String>, bool))
    ensures
        texts(r.0@) == report(config, inputs@),
        r.1 == after_inputs(config, inputs@, inputs.len() as int).complete,
{
    let mut out: Vec<String> = Vec::new();
    let mut sums = Counts { lines: 0, words: 0, chars: 0, bytes: 0 };
    let mut i: usize = 0;
    assert(texts(out@) =~= after_inputs(config, inputs@, 0).lines);
    while i < inputs.len()
        invariant
            i <= inputs.len(),
            after_inputs(config, inputs@, i as int).complete,
            sums@ == after_inputs(config, inputs@, i as int).totals,
            sums.lines <= i * usize::MAX,
            sums.words <= i * usize::MAX,
            sums.chars <= i * usize::MAX,
            sums.bytes <= i * usize::MAX,
            texts(out@) == after_inputs(config, inputs@, i as int).lines,
        decreases inputs.len() - i,
    {
        let ghost shown = texts(out@);
        assert(i * usize::MAX <= (i + 1) * usize::MAX) by (nonlinear_arith);
        match &inputs[i].content {
            Some(file) => {
                match from_utf8(file.as_slice()) {
                    None => {
                        proof {
                            lemma_run_ended(config, inputs@, i + 1, inputs.len() as int);
                        }
                        return (out, false);
                    },
                    Some(text) => {
                        proof {
                            encode_utf8_decode_utf8(text@);
                        }
                        let c = counts(text);
                        assert(i * usize::MAX + usize::MAX == (i + 1) * usize::MAX)
                            by (nonlinear_arith);
                        assert(i * usize::MAX <= usize::MAX * usize::MAX) by (nonlinear_arith)
                            requires
                                i <= usize::MAX,
                        ;
                        sums = Counts {
                            lines: sums.lines + c.lines,
                            words: sums.words + c.words,
                            chars: sums.chars + c.chars,
                            bytes: sums.bytes + c.bytes,
                        };
                        let line = format_counts(c, config, inputs[i].name.as_str());
                        out.push(line);
                        assert(texts(out@) =~= shown.push(line@));
                    },
                }
            },
            None => {},
        }
        i += 1;
    }
    if inputs.len() > 1 {
        let ghost shown = texts(out@);
        let line = format_total(sums, config);
        out.push(line);
        assert(texts(out@) =~= shown.push(line@));
    }
    (out, true)
}

} // verus!
