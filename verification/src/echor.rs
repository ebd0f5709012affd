//! Writing the arguments back.

use vstd::prelude::*;
use vstd::string::*;

verus! {

/// The first `n` words with a space between each two of them.
pub open spec fn joined(words: Seq<String>, n: int) -> Seq<char>
    decreases n,
{
    if n <= 0 {
        Seq::empty()
    } else if n == 1 {
        words[0]@
    } else {
        joined(words, n - 1) + seq![' '] + words[n - 1]@
    }
}

/// What is written for `words`: the words with a space between each two of
/// them, and a line feed unless it is switched off.
pub open spec fn echo_text(words: Seq<String>, no_newline: bool) -> Seq<char> {
    if no_newline {
        joined(words, words.len() as int)
    } else {
        joined(words, words.len() as int) + seq!['\n']
    }
}

/// Joins `text` with spaces and ends it with a line feed unless
/// `no_newline` is set.
pub fn echo(text: &Vec<String>, no_newline: bool) -> (r: String)
    ensures
        r@ == echo_text(text@, no_newline),
{
    let mut out = String::new();
    let mut i: usize = 0;
    proof {
        reveal_strlit(" ");
        reveal_strlit("\n");
        assert(" "@ =~= seq![' ']);
        assert("\n"@ =~= seq!['\n']);
    }
    while i < text.len()
        invariant
            i <= text.len(),
            " "@ == seq![' '],
            out@ == joined(text@, i as int),
        decreases text.len() - i,
    {
        if i > 0 {
            out.append(" ");
        }
        out.append(text[i].as_str());
        assert(out@ =~= joined(text@, i + 1));
        i += 1;
    }
    if !no_newline {
        out.append("\n");
    }
    out
}

} // verus!
