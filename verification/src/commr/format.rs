//! The layout of one classified line.
//!
//! The three classes are printed as three columns. A line of the first column
//! stands at the start of the output line; a line of a later column follows
//! one delimiter for each earlier column that is shown. A suppressed column
//! leaves no gap: the lines of the columns after it move left.

use super::Classification;
use super::Config;
use vstd::prelude::*;
use vstd::string::*;

verus! {

/// Whether the lines of class `class` are left out of the output.
pub open spec fn suppressed(class: Classification, config: &Config) -> bool {
    match class {
        Classification::OnlyInFirst => config.suppress_first,
        Classification::OnlyInSecond => config.suppress_second,
        Classification::InBoth => config.suppress_both,
    }
}

/// The delimiters that precede a line of class `class`: one for each column
/// before its own that is shown.
pub open spec fn indent(class: Classification, config: &Config) -> Seq<char> {
    let for_first = if config.suppress_first {
        Seq::<char>::empty()
    } else {
        config.delimiter@
    };
    let for_second = if config.suppress_second {
        Seq::<char>::empty()
    } else {
        config.delimiter@
    };
    match class {
        Classification::OnlyInFirst => Seq::<char>::empty(),
        Classification::OnlyInSecond => for_first,
        Classification::InBoth => for_first + for_second,
    }
}

/// The output line for `text` in class `class`, or `None` if that class is
/// suppressed.
pub open spec fn render(class: Classification, text: Seq<char>, config: &Config) -> Option<
    Seq<char>,
> {
    if suppressed(class, config) {
        None
    } else {
        Some(indent(class, config) + text)
    }
}

/// Lays out a line found only in the first input.
pub fn format_col_1(line: &str, config: &Config) -> (r: Option<String>)
    ensures
        r matches Some(s) ==> render(Classification::OnlyInFirst, line@, config) == Some(s@),
        r is None ==> render(Classification::OnlyInFirst, line@, config) is None,
{
    if config.suppress_first {
        return None;
    }
    let out = String::from_str(line);
    assert(out@ =~= Seq::<char>::empty() + line@);
    Some(out)
}

/// Lays out a line found only in the second input.
pub fn format_col_2(line: &str, config: &Config) -> (r: Option<String>)
    ensures
        r matches Some(s) ==> render(Classification::OnlyInSecond, line@, config) == Some(s@),
        r is None ==> render(Classification::OnlyInSecond, line@, config) is None,
{
    if config.suppress_second {
        return None;
    }
    let mut out = String::new();
    if !config.suppress_first {
        out.append(config.delimiter.as_str());
    }
    out.append(line);
    assert(out@ =~= indent(Classification::OnlyInSecond, config) + line@);
    Some(out)
}

/// Lays out a line found in both inputs.
pub fn format_col_3(line: &str, config: &Config) -> (r: Option<String>)
    ensures
        r matches Some(s) ==> render(Classification::InBoth, line@, config) == Some(s@),
        r is None ==> render(Classification::InBoth, line@, config) is None,
{
    if config.suppress_both {
        return None;
    }
    let mut out = String::new();
    if !config.suppress_first {
        out.append(config.delimiter.as_str());
    }
    if !config.suppress_second {
        out.append(config.delimiter.as_str());
    }
    out.append(line);
    assert(out@ =~= indent(Classification::InBoth, config) + line@);
    Some(out)
}

/// Lays out `line` as a line of class `class`: the text to write, without a
/// line terminator, or `None` if nothing is to be written for it.
pub fn format_line(class: Classification, line: &str, config: &Config) -> (r: Option<String>)
    ensures
        r matches Some(s) ==> render(class, line@, config) == Some(s@),
        r is None ==> render(class, line@, config) is None,
{
    match class {
        Classification::OnlyInFirst => format_col_1(line, config),
        Classification::OnlyInSecond => format_col_2(line, config),
        Classification::InBoth => format_col_3(line, config),
    }
}

} // verus!
