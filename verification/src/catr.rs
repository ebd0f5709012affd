//! Writing inputs one after the other, with their lines numbered on
//! request.

use crate::text::align_right;
use crate::text::chars_of;
use crate::text::content_len;
use crate::text::decimal;
use crate::text::decimal_string;
use crate::text::lines_of;
use crate::text::lines_valid;
use crate::text::pad_left;
use crate::text::read_valid_lines;
use crate::text::readable_lines;
use crate::text::split_lines;
use crate::text::string_of_range;
use crate::text::texts;
use crate::text::without_line_end;
use crate::text::Input;
use vstd::prelude::*;
use vstd::string::*;

verus! {

/// Which inputs to write, and which lines to number.
#[derive(Debug)]
pub struct Config {
    /// The names of the inputs; `-` stands for the standard input.
    pub files: Vec<String>,
    /// Number every line.
    pub number_lines: bool,
    /// Number the lines that are not empty; numbering every line overrides
    /// this.
    pub number_nonblank_lines: bool,
}

/// Whether a line with the content `content` gets a number.
pub open spec fn is_numbered(content: Seq<char>, config: &Config) -> bool {
    config.number_lines || (config.number_nonblank_lines && content.len() > 0)
}

/// What is written for a line that was read as `line`, where `number` lines
/// have been numbered before it: the line without its end, after its number
/// in a field of six characters and a tab if it is numbered, and a line feed.
pub open spec fn line_text(line: Seq<char>, number: nat, config: &Config) -> Seq<char> {
    let content = without_line_end(line);
    if is_numbered(content, config) {
        align_right(decimal(number + 1), 6) + seq!['\t'] + content + seq!['\n']
    } else {
        content + seq!['\n']
    }
}

/// How many lines have been numbered after a line that was read as `line`.
pub open spec fn number_after(line: Seq<char>, number: nat, config: &Config) -> nat {
    if is_numbered(without_line_end(line), config) {
        number + 1
    } else {
        number
    }
}

/// What has been written, how many lines have been numbered, and whether
/// every input so far was read to its end.
pub struct State {
    pub output: Seq<char>,
    pub number: nat,
    pub complete: bool,
}

/// The state after the lines `lines` have been written from the state
/// `state`.
pub open spec fn after_lines(state: State, lines: Seq<Seq<char>>, config: &Config) -> State
    decreases lines.len(),
{
    if lines.len() == 0 {
        state
    } else {
        let before = after_lines(state, lines.drop_last(), config);
        State {
            output: before.output + line_text(lines.last(), before.number, config),
            number: number_after(lines.last(), before.number, config),
            complete: before.complete,
        }
    }
}

/// The state after the input `file` has been written from the state
/// `state`: its lines are written up to the first that is not UTF-8.
pub open spec fn after_file(state: State, file: Seq<u8>, config: &Config) -> State {
    let written = after_lines(state, lines_of(readable_lines(file)), config);
    State { output: written.output, number: written.number, complete: lines_valid(file) }
}

/// The state after the first `n` inputs. An input that could not be opened
/// is passed over; an input that is not UTF-8 ends the run.
pub open spec fn after_inputs(config: &Config, inputs: Seq<Input>, n: int) -> State
    decreases n,
{
    if n <= 0 {
        State { output: Seq::empty(), number: 0, complete: true }
    } else {
        let before = after_inputs(config, inputs, n - 1);
        if !before.complete {
            before
        } else {
            match inputs[n - 1].content {
                None => before,
                Some(file) => after_file(before, file@, config),
            }
        }
    }
}

/// Writes the input `file` to `out` and counts the lines it numbers in
/// `number`. Returns whether the input was read to its end.
fn write_file(out: &mut String, number: &mut u128, file: &[u8], config: &Config) -> (complete:
    bool)
    requires
        *old(number) + usize::MAX <= u128::MAX,
    ensures
        ({
            let before = State { output: old(out)@, number: *old(number) as nat, complete: true };
            let after = after_file(before, file@, config);
            &&& final(out)@ == after.output
            &&& *final(number) == after.number
            &&& complete == after.complete
            &&& *final(number) <= *old(number) + usize::MAX
        }),
{
    let (text, complete) = read_valid_lines(file);
    let lines = split_lines(text.as_str());
    let ghost all = texts(lines@);
    let ghost start = State { output: out@, number: *number as nat, complete: true };
    let mut i: usize = 0;
    assert(all.take(0) =~= Seq::<Seq<char>>::empty());
    while i < lines.len()
        invariant
            i <= lines.len(),
            all == texts(lines@),
            start.number + usize::MAX <= u128::MAX,
            out@ == after_lines(start, all.take(i as int), config).output,
            *number == after_lines(start, all.take(i as int), config).number,
            *number <= start.number + i,
        decreases lines.len() - i,
    {
        let chars = chars_of(lines[i].as_str());
        assert(all[i as int] == chars@);
        assert(all.take(i + 1).drop_last() =~= all.take(i as int));
        assert(all.take(i + 1).last() == chars@);
        let len = content_len(chars.as_slice());
        let content = string_of_range(chars.as_slice(), 0, len);
        assert(content@ =~= without_line_end(chars@));
        let ghost before = out@;
        if config.number_lines || (config.number_nonblank_lines && len > 0) {
            *number = *number + 1;
            let numeral = decimal_string(*number);
            let field = pad_left(numeral.as_str(), 6);
            out.append(field.as_str());
            proof {
                reveal_strlit("\t");
                assert("\t"@ =~= seq!['\t']);
            }
            out.append("\t");
        }
        out.append(content.as_str());
        proof {
            reveal_strlit("\n");
            assert("\n"@ =~= seq!['\n']);
        }
        out.append("\n");
        assert(out@ =~= before + line_text(chars@, (*number - if is_numbered(
            without_line_end(chars@),
            config,
        ) {
            1int
        } else {
            0int
        }) as nat, config));
        i += 1;
    }
    assert(all.take(lines.len() as int) =~= all);
    complete
}

/// Writes `inputs` one after the other, as `config` asks. Returns what is
/// written, and whether every input was read to its end; an input that
/// holds a line that is not UTF-8 ends the run at that line.
pub fn run(config: &Config, inputs: &Vec<Input>) -> (r: (String, bool))
    ensures
        r.0@ == after_inputs(config, inputs@, inputs.len() as int).output,
        r.1 == after_inputs(config, inputs@, inputs.len() as int).complete,
{
    let mut out = String::new();
    let mut number: u128 = 0;
    let mut i: usize = 0;
    while i < inputs.len()
        invariant
            i <= inputs.len(),
            after_inputs(config, inputs@, i as int).complete,
            out@ == after_inputs(config, inputs@, i as int).output,
            number == after_inputs(config, inputs@, i as int).number,
            number <= i * usize::MAX,
        decreases inputs.len() - i,
    {
        assert(i * usize::MAX + usize::MAX == (i + 1) * usize::MAX) by (nonlinear_arith);
        assert((i + 1) * usize::MAX <= usize::MAX * usize::MAX) by (nonlinear_arith)
            requires
                i + 1 <= usize::MAX,
        ;
        match &inputs[i].content {
            None => {},
            Some(file) => {
                let complete = write_file(&mut out, &mut number, file.as_slice(), config);
                if !complete {
                    proof {
                        lemma_run_ended(config, inputs@, i + 1, inputs.len() as int);
                    }
                    return (out, false);
                }
            },
        }
        i += 1;
    }
    (out, true)
}

/// Once a run has ended, later inputs change nothing.
proof fn lemma_run_ended(config: &Config, inputs: Seq<Input>, k: int, n: int)
    requires
        0 <= k <= n,
        !after_inputs(config, inputs, k).complete,
    ensures
        after_inputs(config, inputs, n) == after_inputs(config, inputs, k),
    decreases n - k,
{
    if k < n {
        lemma_run_ended(config, inputs, k, n - 1);
    }
}

} // verus!
