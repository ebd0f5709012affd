//! The synchronised walk over the two inputs.
//!
//! The walk looks at one pending line of each input. While both inputs have
//! a line, the comparison keys of the two lines decide: equal keys make one
//! line common to both inputs, otherwise the line with the smaller key
//! belongs to its input alone. Once one input is exhausted, every line left
//! in the other belongs to that other input alone. Each step consumes the
//! lines it classifies, so every line is classified exactly once.

use super::cursor::LineCursor;
use super::format::format_line;
use super::format::render;
use super::Classification;
use super::Config;
use crate::order::bytes_less;
use crate::order::compare_bytes;
use crate::order::KeyOrder;
use crate::text::texts;
use vstd::prelude::*;
use vstd::string::*;
use vstd::utf8::encode_utf8;

verus! {

/// The lower-case form of a text, as computed by `str::to_lowercase` of the
/// standard library from the Unicode case mappings.
pub uninterp spec fn lowercase(text: Seq<char>) -> Seq<char>;

/// The text that stands for a line when lines are compared: the line itself,
/// or its lower-case form when case is to be ignored.
pub open spec fn folded(line: Seq<char>, case_insensitive: bool) -> Seq<char> {
    if case_insensitive {
        lowercase(line)
    } else {
        line
    }
}

/// The comparison key of a line: the UTF-8 bytes of its folded text.
pub open spec fn key_of(line: Seq<char>, case_insensitive: bool) -> Seq<u8> {
    encode_utf8(folded(line, case_insensitive))
}

/// The class of the next output line, given the comparison keys of the two
/// pending lines (`None` for an exhausted input); `None` when both inputs
/// are exhausted.
pub open spec fn classify_keys_spec(first: Option<Seq<u8>>, second: Option<Seq<u8>>) -> Option<
    Classification,
> {
    match (first, second) {
        (None, None) => None,
        (Some(_), None) => Some(Classification::OnlyInFirst),
        (None, Some(_)) => Some(Classification::OnlyInSecond),
        (Some(k1), Some(k2)) => if k1 == k2 {
            Some(Classification::InBoth)
        } else if bytes_less(k1, k2) {
            Some(Classification::OnlyInFirst)
        } else {
            Some(Classification::OnlyInSecond)
        },
    }
}

/// The comparison key of a pending line, if there is one.
pub open spec fn pending_key(pending: Option<Seq<char>>, case_insensitive: bool) -> Option<
    Seq<u8>,
> {
    match pending {
        Some(line) => Some(key_of(line, case_insensitive)),
        None => None,
    }
}

/// The class of the next output line, given the two pending lines.
pub open spec fn classify_spec(
    first: Option<Seq<char>>,
    second: Option<Seq<char>>,
    case_insensitive: bool,
) -> Option<Classification> {
    classify_keys_spec(
        pending_key(first, case_insensitive),
        pending_key(second, case_insensitive),
    )
}

/// The first line of `lines`, if there is one.
pub open spec fn head(lines: Seq<Seq<char>>) -> Option<Seq<char>> {
    if lines.len() > 0 {
        Some(lines[0])
    } else {
        None
    }
}

/// The classified lines that the walk over `a` and `b` yields, in order.
/// A line common to both inputs is reported with the text it has in `a`.
pub open spec fn merge(a: Seq<Seq<char>>, b: Seq<Seq<char>>, case_insensitive: bool) -> Seq<
    (Classification, Seq<char>),
>
    decreases a.len() + b.len(),
{
    match classify_spec(head(a), head(b), case_insensitive) {
        None => Seq::empty(),
        Some(class) => {
            let text = if class.takes_first() {
                a[0]
            } else {
                b[0]
            };
            let rest_a = if class.takes_first() {
                a.drop_first()
            } else {
                a
            };
            let rest_b = if class.takes_second() {
                b.drop_first()
            } else {
                b
            };
            seq![(class, text)] + merge(rest_a, rest_b, case_insensitive)
        },
    }
}

/// The output lines for a sequence of classified lines: each line laid out
/// for its class, the lines of suppressed classes left out.
pub open spec fn output(entries: Seq<(Classification, Seq<char>)>, config: &Config) -> Seq<
    Seq<char>,
>
    decreases entries.len(),
{
    if entries.len() == 0 {
        Seq::empty()
    } else {
        let before = output(entries.drop_last(), config);
        match render(entries.last().0, entries.last().1, config) {
            Some(line) => before.push(line),
            None => before,
        }
    }
}

/// A line together with the class that the comparison gave it.
#[derive(Debug)]
pub struct Classified {
    pub class: Classification,
    pub text: String,
}

impl View for Classified {
    type V = (Classification, Seq<char>);

    open spec fn view(&self) -> (Classification, Seq<char>) {
        (self.class, self.text@)
    }
}

/// The views of a sequence of classified lines.
pub open spec fn entries(lines: Seq<Classified>) -> Seq<(Classification, Seq<char>)> {
    lines.map_values(|line: Classified| line@)
}

/// What one step of the walk asks of the caller: write `output`, if there is
/// any, then advance the cursors that `class` consumes.
#[derive(Debug)]
pub struct Action {
    pub class: Classification,
    pub output: Option<String>,
}

/// Gives the lower-case form of `text` by a call of `str::to_lowercase`.
/// The result is a function of the text alone; the contract names it and
/// says nothing of the case mappings themselves.
#[verifier::external_body]
fn to_lowercase(text: &str) -> (r: String)
    ensures
        r@ == lowercase(text@),
{
    text.to_lowercase()
}

/// Classifies the next line from the comparison keys of the two pending
/// lines, where `None` stands for an exhausted input.
pub fn classify_keys(first: Option<&[u8]>, second: Option<&[u8]>) -> (r: Option<Classification>)
    ensures
        r == classify_keys_spec(
            match first {
                Some(k) => Some(k@),
                None => None,
            },
            match second {
                Some(k) => Some(k@),
                None => None,
            },
        ),
{
    match (first, second) {
        (None, None) => None,
        (Some(_), None) => Some(Classification::OnlyInFirst),
        (None, Some(_)) => Some(Classification::OnlyInSecond),
        (Some(k1), Some(k2)) => match compare_bytes(k1, k2) {
            KeyOrder::Equal => Some(Classification::InBoth),
            KeyOrder::Less => Some(Classification::OnlyInFirst),
            KeyOrder::Greater => Some(Classification::OnlyInSecond),
        },
    }
}

/// Classifies the next line of the walk from the pending lines of the two
/// cursors; `None` when both inputs are exhausted and the walk is over.
pub fn classify(first: &LineCursor, second: &LineCursor, case_insensitive: bool) -> (r: Option<
    Classification,
>)
    ensures
        r == classify_spec(first@, second@, case_insensitive),
{
    match (first.pending(), second.pending()) {
        (Some(line1), Some(line2)) => {
            if case_insensitive {
                let key1 = to_lowercase(line1.as_str());
                let key2 = to_lowercase(line2.as_str());
                classify_keys(Some(key1.as_str().as_bytes()), Some(key2.as_str().as_bytes()))
            } else {
                classify_keys(Some(line1.as_str().as_bytes()), Some(line2.as_str().as_bytes()))
            }
        },
        (Some(_), None) => Some(Classification::OnlyInFirst),
        (None, Some(_)) => Some(Classification::OnlyInSecond),
        (None, None) => None,
    }
}

/// The text of the line that a step of class `class` emits: the pending line
/// of the first input, unless the line belongs to the second input alone.
pub open spec fn emitted_text(
    class: Classification,
    first: Option<Seq<char>>,
    second: Option<Seq<char>>,
) -> Seq<char> {
    if class.takes_first() {
        first->0
    } else {
        second->0
    }
}

/// Decides one step of the walk: classifies the next line and lays it out.
/// Returns `None` exactly when both inputs are exhausted.
pub fn step(first: &LineCursor, second: &LineCursor, config: &Config) -> (r: Option<Action>)
    ensures
        r is None <==> first@ is None && second@ is None,
        r matches Some(action) ==> {
            &&& Some(action.class) == classify_spec(first@, second@, config.case_insensitive)
            &&& action.output matches Some(line) ==> render(
                action.class,
                emitted_text(action.class, first@, second@),
                config,
            ) == Some(line@)
            &&& action.output is None ==> render(
                action.class,
                emitted_text(action.class, first@, second@),
                config,
            ) is None
        },
{
    match classify(first, second, config.case_insensitive) {
        None => None,
        Some(class) => {
            let source = if class.advances_first() {
                first.pending()
            } else {
                second.pending()
            };
            match source {
                Some(line) => Some(
                    Action { class, output: format_line(class, line.as_str(), config) },
                ),
                None => None,
            }
        },
    }
}

/// The line at index `i` of `lines`, or `None` past the end.
fn line_at(lines: &Vec<String>, i: usize) -> (r: Option<String>)
    ensures
        i < lines.len() ==> (r matches Some(line) && line@ == lines[i as int]@),
        i >= lines.len() ==> r is None,
{
    if i < lines.len() {
        Some(lines[i].clone())
    } else {
        None
    }
}

/// Unfolds `merge` at position `(i, j)` of the two inputs.
proof fn lemma_merge_unfold(
    a: Seq<Seq<char>>,
    b: Seq<Seq<char>>,
    i: int,
    j: int,
    case_insensitive: bool,
)
    requires
        0 <= i <= a.len(),
        0 <= j <= b.len(),
    ensures
        head(a.skip(i)) == (if i < a.len() {
            Some(a[i])
        } else {
            None
        }),
        head(b.skip(j)) == (if j < b.len() {
            Some(b[j])
        } else {
            None
        }),
        match classify_spec(head(a.skip(i)), head(b.skip(j)), case_insensitive) {
            None => i == a.len() && j == b.len() && merge(a.skip(i), b.skip(j), case_insensitive)
                == Seq::<(Classification, Seq<char>)>::empty(),
            Some(class) => {
                let text = emitted_text(class, head(a.skip(i)), head(b.skip(j)));
                let ni = if class.takes_first() {
                    i + 1
                } else {
                    i
                };
                let nj = if class.takes_second() {
                    j + 1
                } else {
                    j
                };
                &&& ni <= a.len()
                &&& nj <= b.len()
                &&& merge(a.skip(i), b.skip(j), case_insensitive) == seq![(class, text)] + merge(
                    a.skip(ni),
                    b.skip(nj),
                    case_insensitive,
                )
            },
        },
{
    if i < a.len() {
        assert(a.skip(i).drop_first() =~= a.skip(i + 1));
    }
    if j < b.len() {
        assert(b.skip(j).drop_first() =~= b.skip(j + 1));
    }
}

/// Classifies every line of two inputs that are held in memory.
pub fn compare(first: &Vec<String>, second: &Vec<String>, case_insensitive: bool) -> (r: Vec<
    Classified,
>)
    ensures
        entries(r@) == merge(texts(first@), texts(second@), case_insensitive),
{
    let ghost a = texts(first@);
    let ghost b = texts(second@);
    let mut i: usize = 0;
    let mut j: usize = 0;
    let mut cursor1 = LineCursor::new(line_at(first, 0));
    let mut cursor2 = LineCursor::new(line_at(second, 0));
    let mut out: Vec<Classified> = Vec::new();
    proof {
        assert(a.skip(0) =~= a);
        assert(b.skip(0) =~= b);
        assert(entries(out@) + merge(a, b, case_insensitive) =~= merge(a, b, case_insensitive));
    }
    loop
        invariant
            a == texts(first@),
            b == texts(second@),
            i <= first.len(),
            j <= second.len(),
            cursor1@ == head(a.skip(i as int)),
            cursor2@ == head(b.skip(j as int)),
            merge(a, b, case_insensitive) == entries(out@) + merge(
                a.skip(i as int),
                b.skip(j as int),
                case_insensitive,
            ),
        ensures
            merge(a, b, case_insensitive) == entries(out@),
        decreases (first.len() - i) + (second.len() - j),
    {
        proof {
            lemma_merge_unfold(a, b, i as int, j as int, case_insensitive);
        }
        let ghost before = entries(out@);
        match classify(&cursor1, &cursor2, case_insensitive) {
            None => {
                assert(before + Seq::<(Classification, Seq<char>)>::empty() =~= before);
                break ;
            },
            Some(class) => {
                let source = if class.advances_first() {
                    cursor1.pending()
                } else {
                    cursor2.pending()
                };
                let text = match source {
                    Some(line) => line.clone(),
                    None => String::new(),
                };
                let ghost entry = (class, text@);
                out.push(Classified { class, text });
                if class.advances_first() {
                    i += 1;
                    cursor1.advance(line_at(first, i));
                }
                if class.advances_second() {
                    j += 1;
                    cursor2.advance(line_at(second, j));
                }
                proof {
                    lemma_merge_unfold(a, b, i as int, j as int, case_insensitive);
                    let rest = merge(a.skip(i as int), b.skip(j as int), case_insensitive);
                    assert(entries(out@) =~= before.push(entry));
                    assert(before + (seq![entry] + rest) =~= before.push(entry) + rest);
                }
            },
        }
    }
    out
}

/// Compares two inputs that are held in memory and returns the lines of the
/// report, in order and without line terminators.
///
/// The result is what a caller obtains who drives [`step`] over two streams
/// with the same lines and writes each `output` as it comes.
pub fn run(config: &Config, first: &Vec<String>, second: &Vec<String>) -> (r: Vec<String>)
    ensures
        texts(r@) == output(
            merge(texts(first@), texts(second@), config.case_insensitive),
            config,
        ),
{
    let ghost a = texts(first@);
    let ghost b = texts(second@);
    let ghost fold = config.case_insensitive;
    let ghost mut done = Seq::<(Classification, Seq<char>)>::empty();
    let mut i: usize = 0;
    let mut j: usize = 0;
    let mut cursor1 = LineCursor::new(line_at(first, 0));
    let mut cursor2 = LineCursor::new(line_at(second, 0));
    let mut out: Vec<String> = Vec::new();
    proof {
        assert(a.skip(0) =~= a);
        assert(b.skip(0) =~= b);
        assert(done + merge(a, b, fold) =~= merge(a, b, fold));
        assert(texts(out@) =~= output(done, config));
    }
    loop
        invariant
            a == texts(first@),
            b == texts(second@),
            fold == config.case_insensitive,
            i <= first.len(),
            j <= second.len(),
            cursor1@ == head(a.skip(i as int)),
            cursor2@ == head(b.skip(j as int)),
            merge(a, b, fold) == done + merge(a.skip(i as int), b.skip(j as int), fold),
            texts(out@) == output(done, config),
        ensures
            texts(out@) == output(merge(a, b, fold), config),
        decreases (first.len() - i) + (second.len() - j),
    {
        proof {
            lemma_merge_unfold(a, b, i as int, j as int, fold);
        }
        let ghost shown = texts(out@);
        match step(&cursor1, &cursor2, config) {
            None => {
                assert(done + Seq::<(Classification, Seq<char>)>::empty() =~= done);
                break ;
            },
            Some(action) => {
                let ghost entry = (
                    action.class,
                    emitted_text(action.class, cursor1@, cursor2@),
                );
                if let Some(line) = action.output {
                    out.push(line);
                    assert(texts(out@) =~= shown.push(line@));
                }
                if action.class.advances_first() {
                    i += 1;
                    cursor1.advance(line_at(first, i));
                }
                if action.class.advances_second() {
                    j += 1;
                    cursor2.advance(line_at(second, j));
                }
                proof {
                    lemma_merge_unfold(a, b, i as int, j as int, fold);
                    let rest = merge(a.skip(i as int), b.skip(j as int), fold);
                    assert(done + (seq![entry] + rest) =~= done.push(entry) + rest);
                    assert(done.push(entry).drop_last() =~= done);
                    done = done.push(entry);
                }
            },
        }
    }
    out
}

} // verus!
