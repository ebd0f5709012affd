//! Choosing entries of a directory tree by their kind and by their name.

use crate::pattern::found_in;
use crate::pattern::Pattern;
use crate::text::texts;
use vstd::prelude::*;
use vstd::string::*;

verus! {

/// A kind of entry to look for.
#[derive(Copy, Clone, PartialEq, Eq, Debug, Structural)]
pub enum EntryType {
    /// A directory.
    Dir,
    /// A regular file.
    File,
    /// A symbolic link.
    Link,
}

/// What is known of an entry that was met on a walk through a directory
/// tree.
#[derive(Debug)]
pub struct Entry {
    /// The path of the entry, as it is to be shown.
    pub path: String,
    /// The name of the entry: the last part of its path.
    pub name: String,
    /// The entry is a directory.
    pub is_dir: bool,
    /// The entry is a regular file.
    pub is_file: bool,
    /// The entry is a symbolic link.
    pub is_symlink: bool,
}

/// Where to look, and for what.
pub struct Config {
    /// The paths at which the walks start.
    pub paths: Vec<String>,
    /// The patterns for the names; an entry passes if one of them matches.
    pub entry_names: Vec<Pattern>,
    /// The kinds to look for; an entry passes if it is of one of them.
    pub entry_types: Vec<EntryType>,
}

/// Whether `entry` is of the kind `kind`.
pub open spec fn is_of_type(entry: &Entry, kind: EntryType) -> bool {
    match kind {
        EntryType::Dir => entry.is_dir,
        EntryType::File => entry.is_file,
        EntryType::Link => entry.is_symlink,
    }
}

/// Whether `entry` passes the filter of kinds: it does if no kind is asked
/// for, or if it is of one of the kinds.
pub open spec fn passes_types(entry: &Entry, entry_types: Seq<EntryType>) -> bool {
    entry_types.len() == 0 || exists|i: int|
        0 <= i < entry_types.len() && is_of_type(entry, #[trigger] entry_types[i])
}

/// Whether `entry` passes the filter of names: it does if no pattern is
/// given, or if one of the patterns matches its name.
pub open spec fn passes_names(entry: &Entry, entry_names: Seq<Pattern>) -> bool {
    entry_names.len() == 0 || exists|i: int|
        0 <= i < entry_names.len() && found_in(
            (#[trigger] entry_names[i]).source(),
            entry_names[i].ignores_case(),
            entry.name@,
        )
}

/// Tells whether `entry` is of one of the kinds asked for.
pub fn filter_type(entry: &Entry, entry_types: &Vec<EntryType>) -> (r: bool)
    ensures
        r == passes_types(entry, entry_types@),
{
    if entry_types.len() == 0 {
        return true;
    }
    let mut i: usize = 0;
    while i < entry_types.len()
        invariant
            i <= entry_types.len(),
            forall|k: int| 0 <= k < i ==> !is_of_type(entry, #[trigger] entry_types@[k]),
        decreases entry_types.len() - i,
    {
        let hit = match entry_types[i] {
            EntryType::Dir => entry.is_dir,
            EntryType::File => entry.is_file,
            EntryType::Link => entry.is_symlink,
        };
        if hit {
            return true;
        }
        i += 1;
    }
    false
}

/// Tells whether one of the patterns matches the name of `entry`.
pub fn filter_name(entry: &Entry, entry_names: &Vec<Pattern>) -> (r: bool)
    ensures
        r == passes_names(entry, entry_names@),
{
    if entry_names.len() == 0 {
        return true;
    }
    let mut i: usize = 0;
    while i < entry_names.len()
        invariant
            i <= entry_names.len(),
            forall|k: int|
                0 <= k < i ==> !found_in(
                    (#[trigger] entry_names@[k]).source(),
                    entry_names@[k].ignores_case(),
                    entry.name@,
                ),
        decreases entry_names.len() - i,
    {
        if entry_names[i].is_match(entry.name.as_str()) {
            return true;
        }
        i += 1;
    }
    false
}

/// The paths of those of the first `n` entries that pass both filters.
pub open spec fn found(config: &Config, entries: Seq<Entry>, n: int) -> Seq<Seq<char>>
    decreases n,
{
    if n <= 0 {
        Seq::empty()
    } else if passes_types(&entries[n - 1], config.entry_types@) && passes_names(
        &entries[n - 1],
        config.entry_names@,
    ) {
        found(config, entries, n - 1).push(entries[n - 1].path@)
    } else {
        found(config, entries, n - 1)
    }
}

/// Lists the paths of the entries that pass the filters of `config`, in the
/// order of the walk.
pub fn run(config: &Config, entries: &Vec<Entry>) -> (r: Vec<String>)
    ensures
        texts(r@) == found(config, entries@, entries.len() as int),
{
    let mut out: Vec<String> = Vec::new();
    let mut i: usize = 0;
    assert(texts(out@) =~= found(config, entries@, 0));
    while i < entries.len()
        invariant
            i <= entries.len(),
            texts(out@) == found(config, entries@, i as int),
        decreases entries.len() - i,
    {
        let entry = &entries[i];
        if filter_type(entry, &config.entry_types) && filter_name(entry, &config.entry_names) {
            let ghost before = texts(out@);
            out.push(entry.path.clone());
            assert(texts(out@) =~= before.push(entry.path@));
        }
        i += 1;
    }
    out
}

} // verus!
