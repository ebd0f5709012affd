//! The cursor over one input of the comparison.

use super::CommError;
use vstd::prelude::*;

verus! {

/// What pulling the next line from an input gave.
#[derive(Debug)]
pub enum Pulled {
    /// A line, without its line terminator.
    Line(String),
    /// The input has no more lines.
    End,
    /// The input could not be read.
    Failed,
}

impl Pulled {
    /// The line to hand to a cursor: `Some` line, `None` at the end of the
    /// input, and the error `SourceUnavailable` if reading failed. A failure
    /// is never taken for the end of the input.
    pub fn line(self) -> (r: Result<Option<String>, CommError>)
        ensures
            self matches Pulled::Line(text) ==> r == Ok::<Option<String>, CommError>(Some(text)),
            self is End ==> r == Ok::<Option<String>, CommError>(None),
            self is Failed ==> r == Err::<Option<String>, CommError>(
                CommError::SourceUnavailable,
            ),
    {
        match self {
            Pulled::Line(text) => Ok(Some(text)),
            Pulled::End => Ok(None),
            Pulled::Failed => Err(CommError::SourceUnavailable),
        }
    }
}

/// The reading position in one input: either a line is pending, or the input
/// is exhausted.
///
/// The cursor holds no stream. Whoever owns the stream reads the next line
/// and hands it to [`LineCursor::advance`], so that the comparator decides
/// and the owner of the stream does the reading.
#[derive(Debug)]
pub struct LineCursor {
    pending: Option<String>,
}

impl View for LineCursor {
    type V = Option<Seq<char>>;

    /// The text of the pending line, if there is one.
    closed spec fn view(&self) -> Option<Seq<char>> {
        match self.pending {
            Some(line) => Some(line@),
            None => None,
        }
    }
}

impl LineCursor {
    /// A cursor at the start of an input whose first line is `first_line`
    /// (`None` for an empty input).
    pub fn new(first_line: Option<String>) -> (r: LineCursor)
        ensures
            first_line matches Some(line) ==> r@ == Some(line@),
            first_line is None ==> r@ is None,
    {
        LineCursor { pending: first_line }
    }

    /// The pending line, or `None` once the input is exhausted.
    pub fn pending(&self) -> (r: Option<&String>)
        ensures
            r matches Some(line) ==> self@ == Some(line@),
            r is None ==> self@ is None,
    {
        self.pending.as_ref()
    }

    /// Whether the input has no line left.
    pub fn is_exhausted(&self) -> (r: bool)
        ensures
            r == (self@ is None),
    {
        self.pending.is_none()
    }

    /// Discards the pending line and takes `next`, the line that follows it
    /// in the input, or becomes exhausted if `next` is `None`.
    pub fn advance(&mut self, next: Option<String>)
        ensures
            next matches Some(line) ==> final(self)@ == Some(line@),
            next is None ==> final(self)@ is None,
    {
        self.pending = next;
    }
}

} // verus!
