//! A collection of fortunes: short texts kept in files, where a line that
//! starts with `%` ends a fortune.

use crate::pattern::found_in;
use crate::pattern::Pattern;
use crate::text::from_utf8;
use crate::text::lines_of;
use crate::text::split_lines;
use crate::text::texts;
use rand::seq::SliceRandom;
use rand::SeedableRng;
use vstd::prelude::*;
use vstd::string::*;
use vstd::utf8::decode_utf8;
use vstd::utf8::encode_utf8_decode_utf8;
use vstd::utf8::valid_utf8;

verus! {

/// One fortune and the file it was read from.
#[derive(Debug)]
pub struct Fortune {
    pub source: String,
    pub text: String,
}

impl View for Fortune {
    type V = (Seq<char>, Seq<char>);

    /// The source and the text of the fortune.
    open spec fn view(&self) -> (Seq<char>, Seq<char>) {
        (self.source@, self.text@)
    }
}

/// A file of fortunes: its path and its bytes.
#[derive(Debug)]
pub struct FortuneFile {
    pub path: String,
    pub content: Vec<u8>,
}

/// Why the fortunes cannot be read.
#[derive(Clone, Copy, Debug, PartialEq, Eq, Structural)]
pub enum FortuneError {
    /// A file is not UTF-8.
    InvalidUtf8,
}

/// The fortunes that the lines `lines` complete, where `pending` holds the
/// lines read since the last fortune ended. A line that starts with `%` ends
/// the pending fortune, if there is one, and is dropped; any other line,
/// and a `%` line while nothing is pending, is added to the pending fortune.
/// What is pending at the end is no fortune.
pub open spec fn fortunes_from(lines: Seq<Seq<char>>, pending: Seq<char>) -> Seq<Seq<char>>
    decreases lines.len(),
{
    if lines.len() == 0 {
        Seq::empty()
    } else if lines[0].len() > 0 && lines[0][0] == '%' && pending.len() > 0 {
        seq![pending] + fortunes_from(lines.drop_first(), Seq::empty())
    } else {
        fortunes_from(lines.drop_first(), pending + lines[0])
    }
}

/// The fortunes of one file with the text `text`, each with the path of the
/// file.
pub open spec fn fortunes_of(path: Seq<char>, text: Seq<char>) -> Seq<(Seq<char>, Seq<char>)> {
    fortunes_from(lines_of(text), Seq::empty()).map_values(|fortune: Seq<char>| (path, fortune))
}

/// Whether the first `n` files are all UTF-8.
pub open spec fn all_readable(files: Seq<FortuneFile>, n: int) -> bool {
    forall|i: int| 0 <= i < n ==> valid_utf8(#[trigger] files[i].content@)
}

/// The fortunes of the first `n` files, in the order of the files.
pub open spec fn collected(files: Seq<FortuneFile>, n: int) -> Seq<(Seq<char>, Seq<char>)>
    decreases n,
{
    if n <= 0 {
        Seq::empty()
    } else {
        collected(files, n - 1) + fortunes_of(
            files[n - 1].path@,
            decode_utf8(files[n - 1].content@),
        )
    }
}

/// The views of a sequence of fortunes.
pub open spec fn views(fortunes: Seq<Fortune>) -> Seq<(Seq<char>, Seq<char>)> {
    fortunes.map_values(|fortune: Fortune| fortune@)
}

/// Appends the fortunes of one file to `out`.
fn read_file(out: &mut Vec<Fortune>, path: &String, text: &str)
    ensures
        views(final(out)@) == views(old(out)@) + fortunes_of(path@, text@),
{
    let lines = split_lines(text);
    let ghost all = texts(lines@);
    let ghost start = views(out@);
    let mut pending = String::new();
    let mut i: usize = 0;
    let ghost mut done = Seq::<Seq<char>>::empty();
    proof {
        assert(all.skip(0) =~= all);
        assert(done + fortunes_from(all, pending@) =~= fortunes_from(all, pending@));
        assert(views(out@) =~= start + done.map_values(|fortune: Seq<char>| (path@, fortune)));
    }
    while i < lines.len()
        invariant
            i <= lines.len(),
            all == texts(lines@),
            all == lines_of(text@),
            fortunes_from(all, Seq::empty()) == done + fortunes_from(all.skip(i as int), pending@),
            views(out@) == start + done.map_values(|fortune: Seq<char>| (path@, fortune)),
        decreases lines.len() - i,
    {
        let line = &lines[i];
        assert(all[i as int] == line@);
        assert(all.skip(i as int).drop_first() =~= all.skip(i + 1));
        assert(all.skip(i as int)[0] == line@);
        let marks_end = line.as_str().unicode_len() > 0 && line.as_str().get_char(0) == '%';
        if marks_end && !pending.as_str().is_empty() {
            let ghost shown = views(out@);
            let ghost text_done = pending@;
            out.push(Fortune { source: path.clone(), text: pending });
            pending = String::new();
            proof {
                let rest = fortunes_from(all.skip(i + 1), Seq::empty());
                assert(done + (seq![text_done] + rest) =~= done.push(text_done) + rest);
                assert(views(out@) =~= shown.push((path@, text_done)));
                assert(done.push(text_done).map_values(|fortune: Seq<char>| (path@, fortune))
                    =~= done.map_values(|fortune: Seq<char>| (path@, fortune)).push(
                    (path@, text_done),
                ));
                done = done.push(text_done);
            }
        } else {
            pending.append(line.as_str());
        }
        i += 1;
    }
    proof {
        assert(done + Seq::<Seq<char>>::empty() =~= done);
    }
}

/// Reads the fortunes of `files`, in the order of the files. Fails if a
/// file is not UTF-8.
pub fn read_fortunes(files: &Vec<FortuneFile>) -> (r: Result<Vec<Fortune>, FortuneError>)
    ensures
        all_readable(files@, files.len() as int) ==> (r matches Ok(fortunes) && views(fortunes@)
            == collected(files@, files.len() as int)),
        !all_readable(files@, files.len() as int) ==> r == Err::<Vec<Fortune>, FortuneError>(
            FortuneError::InvalidUtf8,
        ),
{
    let mut out: Vec<Fortune> = Vec::new();
    let mut i: usize = 0;
    assert(views(out@) =~= collected(files@, 0));
    while i < files.len()
        invariant
            i <= files.len(),
            all_readable(files@, i as int),
            views(out@) == collected(files@, i as int),
        decreases files.len() - i,
    {
        let file = &files[i];
        match from_utf8(file.content.as_slice()) {
            None => {
                return Err(FortuneError::InvalidUtf8);
            },
            Some(text) => {
                proof {
                    encode_utf8_decode_utf8(text@);
                }
                read_file(&mut out, &file.path, text);
            },
        }
        i += 1;
    }
    Ok(out)
}

/// The index that `SliceRandom::choose` picks in a slice of `len` items
/// with a generator that `StdRng::seed_from_u64` has just made from `seed`.
pub uninterp spec fn seeded_index(seed: u64, len: nat) -> int;

/// Picks one fortune by `SliceRandom::choose`, with a generator made from
/// `seed` by `StdRng::seed_from_u64`. An empty slice gives `None`; otherwise
/// the choice is an item of the slice, at an index that the seed and the
/// length decide.
#[verifier::external_body]
fn choose_seeded<'a>(fortunes: &'a [Fortune], seed: u64) -> (r: Option<&'a Fortune>)
    ensures
        r is Some <==> fortunes.len() > 0,
        r matches Some(fortune) ==> 0 <= seeded_index(seed, fortunes@.len()) < fortunes.len()
            && *fortune == fortunes@[seeded_index(seed, fortunes@.len())],
{
    let mut rng = rand::rngs::StdRng::seed_from_u64(seed);
    fortunes.choose(&mut rng)
}

/// Picks one fortune by `SliceRandom::choose`, with the generator of the
/// thread. An empty slice gives `None`; otherwise the choice is some item of
/// the slice.
#[verifier::external_body]
fn choose_random<'a>(fortunes: &'a [Fortune]) -> (r: Option<&'a Fortune>)
    ensures
        r is Some <==> fortunes.len() > 0,
        r matches Some(fortune) ==> exists|i: int|
            0 <= i < fortunes.len() && *fortune == #[trigger] fortunes@[i],
{
    let mut rng = rand::thread_rng();
    fortunes.choose(&mut rng)
}

/// The text of the fortune that was chosen, if one was.
pub fn chosen_text(choice: Option<&Fortune>) -> (r: Option<String>)
    ensures
        choice matches Some(fortune) ==> (r matches Some(text) && text@ == fortune.text@),
        choice is None ==> r is None,
{
    match choice {
        Some(fortune) => Some(fortune.text.clone()),
        None => None,
    }
}

/// Picks the text of one fortune at random; with a seed, the choice is the
/// same whenever the seed and the number of fortunes are. Returns `None` if
/// and only if there is no fortune.
pub fn pick_fortune(fortunes: &[Fortune], seed: Option<u64>) -> (r: Option<String>)
    ensures
        r is None <==> fortunes.len() == 0,
        r matches Some(text) ==> exists|i: int|
            0 <= i < fortunes.len() && text@ == (#[trigger] fortunes@[i]).text@,
        r matches Some(text) ==> (seed matches Some(s) ==> 0 <= seeded_index(s, fortunes@.len())
            < fortunes.len() && text@ == fortunes@[seeded_index(s, fortunes@.len())].text@),
{
    match seed {
        Some(seed) => chosen_text(choose_seeded(fortunes, seed)),
        None => chosen_text(choose_random(fortunes)),
    }
}

/// One piece of the listing of the fortunes that match a pattern.
#[derive(Debug, PartialEq, Eq)]
pub enum Listed {
    /// The source of the fortunes that follow; it goes to the error stream.
    Source(String),
    /// A fortune; it goes to the output, followed by a line with `%`.
    Fortune(String),
}

/// The spec counterpart of a piece of a listing.
pub enum ListedView {
    Source(Seq<char>),
    Fortune(Seq<char>),
}

impl View for Listed {
    type V = ListedView;

    open spec fn view(&self) -> ListedView {
        match self {
            Listed::Source(s) => ListedView::Source(s@),
            Listed::Fortune(s) => ListedView::Fortune(s@),
        }
    }
}

/// The listing of those of the first `n` fortunes whose flag in `wanted` is
/// set, and the source that was announced last. The source of a fortune is
/// announced before it unless it is the one announced last.
pub open spec fn listing(fortunes: Seq<(Seq<char>, Seq<char>)>, wanted: Seq<bool>, n: int) -> (
    Seq<ListedView>,
    Seq<char>,
)
    decreases n,
{
    if n <= 0 {
        (Seq::empty(), Seq::empty())
    } else {
        let (before, last) = listing(fortunes, wanted, n - 1);
        if !wanted[n - 1] {
            (before, last)
        } else if fortunes[n - 1].0 == last {
            (before.push(ListedView::Fortune(fortunes[n - 1].1)), last)
        } else {
            (
                before.push(ListedView::Source(fortunes[n - 1].0)).push(
                    ListedView::Fortune(fortunes[n - 1].1),
                ),
                fortunes[n - 1].0,
            )
        }
    }
}

/// Lists the fortunes whose flag in `wanted` is set.
pub fn list_selected(fortunes: &Vec<Fortune>, wanted: &Vec<bool>) -> (r: Vec<Listed>)
    requires
        wanted.len() == fortunes.len(),
    ensures
        r@.map_values(|item: Listed| item@) == listing(
            views(fortunes@),
            wanted@,
            fortunes.len() as int,
        ).0,
{
    let mut out: Vec<Listed> = Vec::new();
    let mut last = String::new();
    let mut i: usize = 0;
    assert(out@.map_values(|item: Listed| item@) =~= listing(views(fortunes@), wanted@, 0).0);
    while i < fortunes.len()
        invariant
            i <= fortunes.len(),
            wanted.len() == fortunes.len(),
            out@.map_values(|item: Listed| item@) == listing(views(fortunes@), wanted@, i as int).0,
            last@ == listing(views(fortunes@), wanted@, i as int).1,
        decreases fortunes.len() - i,
    {
        let fortune = &fortunes[i];
        let ghost shown = out@.map_values(|item: Listed| item@);
        assert(views(fortunes@)[i as int] == (fortune.source@, fortune.text@));
        if wanted[i] {
            if fortune.source != last {
                last = fortune.source.clone();
                out.push(Listed::Source(fortune.source.clone()));
                out.push(Listed::Fortune(fortune.text.clone()));
                assert(out@.map_values(|item: Listed| item@) =~= shown.push(
                    ListedView::Source(fortune.source@),
                ).push(ListedView::Fortune(fortune.text@)));
            } else {
                out.push(Listed::Fortune(fortune.text.clone()));
                assert(out@.map_values(|item: Listed| item@) =~= shown.push(
                    ListedView::Fortune(fortune.text@),
                ));
            }
        }
        i += 1;
    }
    out
}

/// For each fortune, whether `pattern` matches its text.
pub fn match_fortunes(fortunes: &Vec<Fortune>, pattern: &Pattern) -> (r: Vec<bool>)
    ensures
        r.len() == fortunes.len(),
        forall|i: int|
            0 <= i < fortunes.len() ==> r[i] == found_in(
                pattern.source(),
                pattern.ignores_case(),
                (#[trigger] fortunes[i]).text@,
            ),
{
    let mut out: Vec<bool> = Vec::new();
    let mut i: usize = 0;
    while i < fortunes.len()
        invariant
            i <= fortunes.len(),
            out.len() == i,
            forall|k: int|
                0 <= k < i ==> out[k] == found_in(
                    pattern.source(),
                    pattern.ignores_case(),
                    (#[trigger] fortunes[k]).text@,
                ),
        decreases fortunes.len() - i,
    {
        out.push(pattern.is_match(fortunes[i].text.as_str()));
        i += 1;
    }
    out
}

/// Lists the fortunes that `pattern` matches, each source announced once
/// before the run of its fortunes.
pub fn list_matching(fortunes: &Vec<Fortune>, pattern: &Pattern) -> (r: Vec<Listed>)
    ensures
        exists|wanted: Seq<bool>|
            {
                &&& wanted.len() == fortunes.len()
                &&& forall|i: int|
                    0 <= i < fortunes.len() ==> #[trigger] wanted[i] == found_in(
                        pattern.source(),
                        pattern.ignores_case(),
                        fortunes[i].text@,
                    )
                &&& r@.map_values(|item: Listed| item@) == listing(
                    views(fortunes@),
                    wanted,
                    fortunes.len() as int,
                ).0
            },
{
    let wanted = match_fortunes(fortunes, pattern);
    let out = list_selected(fortunes, &wanted);
    assert(forall|i: int|
        0 <= i < fortunes.len() ==> #[trigger] wanted@[i] == found_in(
            pattern.source(),
            pattern.ignores_case(),
            fortunes[i].text@,
        ));
    out
}

} // verus!
