//! Listing the entries of directories, by name or with their attributes in
//! a table that the `tabular` crate sets.

use crate::text::decimal;
use crate::text::decimal_string;
use crate::text::string_of;
use crate::text::texts;
use tabular::Row;
use tabular::Table;
use vstd::prelude::*;
use vstd::string::*;

verus! {

#[verifier::external_type_specification]
#[verifier::external_body]
pub struct ExTable(tabular::Table);

#[verifier::external_type_specification]
#[verifier::external_body]
pub struct ExRow(tabular::Row);

/// The rows that a table holds, in the order in which they were added: for
/// each row the texts of its cells.
pub uninterp spec fn table_rows(table: Table) -> Seq<Seq<Seq<char>>>;

/// The row format that a table was made with.
pub uninterp spec fn table_format(table: Table) -> Seq<char>;

/// The texts of the cells that a row holds, in the order in which they were
/// added.
pub uninterp spec fn row_cells(row: Row) -> Seq<Seq<char>>;

/// Whether `Table::new_safe` accepts the row format `format`.
pub uninterp spec fn format_accepted(format: Seq<char>) -> bool;

/// The number of columns that `Table::column_count` reports for a table
/// made with the row format `format`.
pub uninterp spec fn format_columns(format: Seq<char>) -> nat;

/// The text that a table with the row format `format` and the rows `rows`
/// displays.
pub uninterp spec fn table_text(format: Seq<char>, rows: Seq<Seq<Seq<char>>>) -> Seq<char>;

/// Makes an empty table by `Table::new_safe`, which refuses a row format
/// that it cannot read; the row format alone decides whether it is
/// accepted.
#[verifier::external_body]
fn new_table(format: &str) -> (r: Option<Table>)
    ensures
        r is Some <==> format_accepted(format@),
        r matches Some(table) ==> table_rows(table) == Seq::<Seq<Seq<char>>>::empty()
            && table_format(table) == format@,
{
    Table::new_safe(format).ok()
}

/// The number of columns of a table, by `Table::column_count`; the row
/// format decides it.
#[verifier::external_body]
fn column_count(table: &Table) -> (r: usize)
    ensures
        r == format_columns(table_format(*table)),
{
    table.column_count()
}

/// Makes a row without cells, by `Row::new`.
#[verifier::external_body]
fn new_row() -> (r: Row)
    ensures
        row_cells(r) == Seq::<Seq<char>>::empty(),
{
    Row::new()
}

/// Adds a cell with the text `value` at the end of a row, by
/// `Row::with_cell`.
#[verifier::external_body]
fn with_cell(row: Row, value: &str) -> (r: Row)
    ensures
        row_cells(r) == row_cells(row).push(value@),
{
    row.with_cell(value)
}

/// Adds a row at the end of a table, by `Table::add_row`, which takes only
/// rows with as many cells as the table has columns. The row format stays.
#[verifier::external_body]
fn add_row(table: &mut Table, row: Row)
    requires
        row_cells(row).len() == format_columns(table_format(*old(table))),
    ensures
        table_rows(*final(table)) == table_rows(*old(table)).push(row_cells(row)),
        table_format(*final(table)) == table_format(*old(table)),
{
    table.add_row(row);
}

/// The text of a table, by its `to_string`; the row format and the rows
/// decide it.
#[verifier::external_body]
fn table_to_string(table: &Table) -> (r: String)
    ensures
        r@ == table_text(table_format(*table), table_rows(*table)),
{
    table.to_string()
}

/// What to list, and how.
#[derive(Debug)]
pub struct Config {
    /// The files and directories to list.
    pub files: Vec<String>,
    /// List the entries whose names start with a dot too.
    pub all: bool,
    /// Show the attributes of each entry.
    pub long: bool,
}

/// Whether an entry of a directory with the name `name` is listed: hidden
/// entries, whose names start with a dot, are listed only on request.
pub open spec fn listed(name: Seq<char>, all: bool) -> bool {
    all || !(name.len() > 0 && name[0] == '.')
}

/// Tells whether an entry of a directory is listed.
pub fn is_listed(name: &str, all: bool) -> (r: bool)
    ensures
        r == listed(name@, all),
{
    all || !(name.unicode_len() > 0 && name.get_char(0) == '.')
}

/// The attributes of an entry that a long listing shows.
#[derive(Debug)]
pub struct LongEntry {
    /// The entry is a directory.
    pub is_dir: bool,
    /// The mode bits of the entry.
    pub mode: u32,
    /// The number of hard links to the entry.
    pub links: u64,
    /// The name of the user that owns the entry.
    pub user: String,
    /// The name of the group that owns the entry.
    pub group: String,
    /// The size of the entry in bytes.
    pub size: u64,
    /// The time of the last change, as it is to be shown.
    pub modified: String,
    /// The path of the entry, as it is to be shown.
    pub path: String,
}

/// The letter `letter` if the bit `mask` of `mode` is set, a dash if not.
pub open spec fn flag(mode: u32, mask: u32, letter: char) -> char {
    if mode & mask != 0 {
        letter
    } else {
        '-'
    }
}

/// The permissions that the mode bits grant, in nine characters: read,
/// write and execute for the owner, for the group and for all others.
pub open spec fn permissions_of(mode: u32) -> Seq<char> {
    seq![
        flag(mode, 0o400, 'r'),
        flag(mode, 0o200, 'w'),
        flag(mode, 0o100, 'x'),
        flag(mode, 0o040, 'r'),
        flag(mode, 0o020, 'w'),
        flag(mode, 0o010, 'x'),
        flag(mode, 0o004, 'r'),
        flag(mode, 0o002, 'w'),
        flag(mode, 0o001, 'x'),
    ]
}

/// One character of the permissions.
fn format_flag(mode: u32, mask: u32, letter: char) -> (r: char)
    ensures
        r == flag(mode, mask, letter),
{
    if mode & mask != 0 {
        letter
    } else {
        '-'
    }
}

/// The permissions that the mode bits grant.
pub fn permissions(mode: u32) -> (r: Vec<char>)
    ensures
        r@ == permissions_of(mode),
{
    let mut out: Vec<char> = Vec::new();
    out.push(format_flag(mode, 0o400, 'r'));
    out.push(format_flag(mode, 0o200, 'w'));
    out.push(format_flag(mode, 0o100, 'x'));
    out.push(format_flag(mode, 0o040, 'r'));
    out.push(format_flag(mode, 0o020, 'w'));
    out.push(format_flag(mode, 0o010, 'x'));
    out.push(format_flag(mode, 0o004, 'r'));
    out.push(format_flag(mode, 0o002, 'w'));
    out.push(format_flag(mode, 0o001, 'x'));
    assert(out@ =~= permissions_of(mode));
    out
}

/// The cells of the row of an entry: a mark for a directory, the
/// permissions, the number of links, the user, the group, the size, the
/// time of the last change and the path.
pub open spec fn cells_of(entry: &LongEntry) -> Seq<Seq<char>> {
    seq![
        if entry.is_dir {
            seq!['d']
        } else {
            seq!['-']
        },
        permissions_of(entry.mode),
        decimal(entry.links as nat),
        entry.user@,
        entry.group@,
        decimal(entry.size as nat),
        entry.modified@,
        entry.path@,
    ]
}

/// The texts of the cells of the row of an entry.
pub fn entry_cells(entry: &LongEntry) -> (r: Vec<String>)
    ensures
        texts(r@) == cells_of(entry),
{
    let mark = if entry.is_dir {
        "d"
    } else {
        "-"
    };
    proof {
        reveal_strlit("d");
        reveal_strlit("-");
        assert("d"@ =~= seq!['d']);
        assert("-"@ =~= seq!['-']);
    }
    let mut out: Vec<String> = Vec::new();
    out.push(String::from_str(mark));
    out.push(string_of(permissions(entry.mode).as_slice()));
    out.push(decimal_string(entry.links as u128));
    out.push(entry.user.clone());
    out.push(entry.group.clone());
    out.push(decimal_string(entry.size as u128));
    out.push(entry.modified.clone());
    out.push(entry.path.clone());
    assert(texts(out@) =~= cells_of(entry));
    out
}

/// The rows of the first `n` entries.
pub open spec fn rows_of(entries: Seq<LongEntry>, n: int) -> Seq<Seq<Seq<char>>>
    decreases n,
{
    if n <= 0 {
        Seq::empty()
    } else {
        rows_of(entries, n - 1).push(cells_of(&entries[n - 1]))
    }
}

/// The row format of a long listing: eight columns, the size set to the
/// right and the others to the left.
pub open spec fn listing_format() -> Seq<char> {
    "{:<}{:<} {:<} {:<} {:<} {:>} {:<} {:<}"@
}

/// Sets the attributes of `entries` in a table, one row for each entry.
/// The listing is made exactly if the row format of a long listing is
/// accepted and gives a table of eight columns, whatever the entries are;
/// it is then the text of the table that holds the rows of all entries.
pub fn long_listing(entries: &Vec<LongEntry>) -> (r: Option<String>)
    ensures
        r is Some <==> format_accepted(listing_format()) && format_columns(listing_format())
            == 8,
        r matches Some(text) ==> text@ == table_text(
            listing_format(),
            rows_of(entries@, entries.len() as int),
        ),
{
    let mut table = match new_table("{:<}{:<} {:<} {:<} {:<} {:>} {:<} {:<}") {
        Some(table) => table,
        None => {
            return None;
        },
    };
    if column_count(&table) != 8 {
        return None;
    }
    let mut i: usize = 0;
    while i < entries.len()
        invariant
            i <= entries.len(),
            table_format(table) == listing_format(),
            format_columns(listing_format()) == 8,
            table_rows(table) == rows_of(entries@, i as int),
        decreases entries.len() - i,
    {
        let cells = entry_cells(&entries[i]);
        let mut row = new_row();
        let mut k: usize = 0;
        assert(texts(cells@).take(0) =~= Seq::<Seq<char>>::empty());
        while k < cells.len()
            invariant
                k <= cells.len(),
                row_cells(row) == texts(cells@).take(k as int),
            decreases cells.len() - k,
        {
            row = with_cell(row, cells[k].as_str());
            assert(texts(cells@).take(k + 1) =~= texts(cells@).take(k as int).push(
                cells@[k as int]@,
            ));
            k += 1;
        }
        assert(texts(cells@).take(cells.len() as int) =~= texts(cells@));
        add_row(&mut table, row);
        i += 1;
    }
    Some(table_to_string(&table))
}

} // verus!
