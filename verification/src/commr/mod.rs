//! A comparator for two sorted streams of lines.
//!
//! Given two inputs that are each assumed to be sorted, the comparator walks
//! them in step and sorts every line into one of three columns: lines found
//! only in the first input, lines found only in the second, and lines found
//! in both. Inputs that are not sorted are not rejected; the walk is still
//! well defined, it just no longer computes a set difference.

pub mod cursor;
pub mod format;
pub mod laws;
pub mod merge;

use vstd::prelude::*;
use vstd::string::*;

verus! {

/// The column that a line of the merged output belongs to.
#[derive(Clone, Copy, Debug, PartialEq, Eq, Structural)]
pub enum Classification {
    /// The line occurs in the first input only.
    OnlyInFirst,
    /// The line occurs in the second input only.
    OnlyInSecond,
    /// The line occurs in both inputs.
    InBoth,
}

impl Classification {
    /// Whether a line of this class is taken from the first input.
    pub open spec fn takes_first(self) -> bool {
        self != Classification::OnlyInSecond
    }

    /// Whether a line of this class is taken from the second input.
    pub open spec fn takes_second(self) -> bool {
        self != Classification::OnlyInFirst
    }

    /// Whether emitting a line of this class moves the first cursor on.
    pub fn advances_first(self) -> (r: bool)
        ensures
            r == self.takes_first(),
    {
        match self {
            Classification::OnlyInSecond => false,
            _ => true,
        }
    }

    /// Whether emitting a line of this class moves the second cursor on.
    pub fn advances_second(self) -> (r: bool)
        ensures
            r == self.takes_second(),
    {
        match self {
            Classification::OnlyInFirst => false,
            _ => true,
        }
    }
}

/// Why a comparison cannot be started or carried on.
#[derive(Clone, Copy, Debug, PartialEq, Eq, Structural)]
pub enum CommError {
    /// An input cannot be opened or read.
    SourceUnavailable,
    /// Both inputs name the standard input.
    ConfigurationInvalid,
}

/// What to compare and how to lay out the result.
#[derive(Debug)]
pub struct Config {
    /// Name of the first input; `-` stands for the standard input.
    pub file_1: String,
    /// Name of the second input; `-` stands for the standard input.
    pub file_2: String,
    /// Leave out the lines found only in the first input.
    pub suppress_first: bool,
    /// Leave out the lines found only in the second input.
    pub suppress_second: bool,
    /// Leave out the lines found in both inputs.
    pub suppress_both: bool,
    /// Compare lines without regard to case.
    pub case_insensitive: bool,
    /// The text that separates the columns.
    pub delimiter: String,
}

/// The name that stands for the standard input.
pub open spec fn stdin_name() -> Seq<char> {
    seq!['-']
}

/// Tells whether `name` is the name of the standard input.
pub fn is_stdin(name: &str) -> (r: bool)
    ensures
        r == (name@ == stdin_name()),
{
    let r = name.unicode_len() == 1 && name.get_char(0) == '-';
    proof {
        if r {
            assert(name@ =~= stdin_name());
        }
    }
    r
}

impl Config {
    /// The configuration that compares `file_1` with `file_2` by the exact
    /// text of their lines, shows all three columns and separates them with
    /// a tab.
    pub fn new(file_1: String, file_2: String) -> (r: Config)
        ensures
            r.file_1 == file_1,
            r.file_2 == file_2,
            !r.suppress_first,
            !r.suppress_second,
            !r.suppress_both,
            !r.case_insensitive,
            r.delimiter@ == seq!['\t'],
    {
        proof {
            reveal_strlit("\t");
            assert("\t"@ =~= seq!['\t']);
        }
        Config {
            file_1,
            file_2,
            suppress_first: false,
            suppress_second: false,
            suppress_both: false,
            case_insensitive: false,
            delimiter: String::from_str("\t"),
        }
    }

    /// A configuration is usable unless both inputs are the standard input.
    pub open spec fn valid(&self) -> bool {
        !(self.file_1@ == stdin_name() && self.file_2@ == stdin_name())
    }

    /// Hands the configuration back if it is usable, and reports
    /// `ConfigurationInvalid` if both inputs name the standard input.
    pub fn validate(self) -> (r: Result<Config, CommError>)
        ensures
            self.valid() ==> r == Ok::<Config, CommError>(self),
            !self.valid() ==> r == Err::<Config, CommError>(CommError::ConfigurationInvalid),
    {
        if is_stdin(self.file_1.as_str()) && is_stdin(self.file_2.as_str()) {
            Err(CommError::ConfigurationInvalid)
        } else {
            Ok(self)
        }
    }
}

} // verus!
