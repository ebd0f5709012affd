//! Text as a sequence of characters: conversions between strings and
//! characters, the line structure of a text, and white space.

use vstd::prelude::*;
use vstd::string::*;
use vstd::slice::slice_subrange;
use vstd::utf8::decode_utf8;
use vstd::utf8::encode_utf8_decode_utf8;
use vstd::utf8::valid_utf8;

verus! {

/// The characters of `text`, in order.
pub fn chars_of(text: &str) -> (r: Vec<char>)
    ensures
        r@ == text@,
{
    let mut out: Vec<char> = Vec::new();
    for c in it: text.chars()
        invariant
            out@ == it.seq().take(it.index() as int),
    {
        out.push(c);
    }
    out
}

/// Appends one character to a string, by `String::push`.
#[verifier::external_body]
fn push_char(text: &mut String, c: char)
    ensures
        final(text)@ == old(text)@.push(c),
{
    text.push(c)
}

/// Takes bytes as text if they are UTF-8, by `core::str::from_utf8`, which
/// accepts exactly the byte strings that are well-formed UTF-8 and hands
/// them back unchanged.
#[verifier::external_body]
pub(crate) fn from_utf8(bytes: &[u8]) -> (r: Option<&str>)
    ensures
        r is Some <==> valid_utf8(bytes@),
        r matches Some(text) ==> text.spec_bytes() == bytes@,
{
    core::str::from_utf8(bytes).ok()
}

/// The text that `String::from_utf8_lossy` makes of bytes: the text that
/// the bytes encode, with the replacement character in place of what is not
/// UTF-8.
pub uninterp spec fn lossy_text(bytes: Seq<u8>) -> Seq<char>;

/// Makes text of bytes that need not be UTF-8, by `String::from_utf8_lossy`.
#[verifier::external_body]
pub(crate) fn from_utf8_lossy(bytes: &[u8]) -> (r: String)
    ensures
        r@ == lossy_text(bytes@),
{
    String::from_utf8_lossy(bytes).into_owned()
}

/// The string made of `chars`, in order.
pub fn string_of(chars: &[char]) -> (r: String)
    ensures
        r@ == chars@,
{
    let mut out = String::new();
    let mut i: usize = 0;
    while i < chars.len()
        invariant
            i <= chars.len(),
            out@ == chars@.take(i as int),
        decreases chars.len() - i,
    {
        push_char(&mut out, chars[i]);
        i += 1;
        assert(chars@.take(i as int) =~= chars@.take(i - 1).push(chars@[i - 1]));
    }
    assert(chars@.take(i as int) =~= chars@);
    out
}

/// The string made of the characters `chars[from..to]`.
pub fn string_of_range(chars: &[char], from: usize, to: usize) -> (r: String)
    requires
        from <= to <= chars.len(),
    ensures
        r@ == chars@.subrange(from as int, to as int),
{
    let mut out = String::new();
    let mut i: usize = from;
    while i < to
        invariant
            from <= i <= to,
            to <= chars.len(),
            out@ == chars@.subrange(from as int, i as int),
        decreases to - i,
    {
        push_char(&mut out, chars[i]);
        i += 1;
        assert(chars@.subrange(from as int, i as int) =~= chars@.subrange(
            from as int,
            i - 1,
        ).push(chars@[i - 1]));
    }
    out
}

/// How many of the first `n` characters of `text` are `c`.
pub open spec fn occurrences(text: Seq<char>, c: char, n: int) -> nat
    decreases n,
{
    if n <= 0 {
        0
    } else {
        occurrences(text, c, n - 1) + if text[n - 1] == c {
            1nat
        } else {
            0nat
        }
    }
}

/// The index of the first `c` in `text`, or the length of `text` if there is
/// none.
pub open spec fn first_index(text: Seq<char>, c: char) -> int
    decreases text.len(),
{
    if text.len() == 0 || text[0] == c {
        0
    } else {
        1 + first_index(text.drop_first(), c)
    }
}

/// Where some of the first `n` characters are `c`, the first `c` of the text
/// is among them; where none is, it is not.
pub proof fn lemma_first_index(text: Seq<char>, c: char, n: int)
    requires
        0 <= n <= text.len(),
    ensures
        0 <= first_index(text, c) <= text.len(),
        first_index(text, c) < text.len() ==> text[first_index(text, c)] == c,
        forall|k: int| 0 <= k < first_index(text, c) ==> text[k] != c,
        occurrences(text, c, n) == 0 <==> n <= first_index(text, c),
    decreases text.len(), n,
{
    if text.len() > 0 && text[0] != c {
        let rest = text.drop_first();
        lemma_first_index(rest, c, 0);
        assert forall|k: int| 0 <= k < first_index(text, c) implies text[k] != c by {
            if k > 0 {
                assert(rest[k - 1] == text[k]);
            }
        }
    }
    if n > 0 {
        lemma_first_index(text, c, n - 1);
    }
}

/// The length of the first line of `text`, its line feed included; the
/// whole length if `text` holds no line feed.
pub open spec fn line_len(text: Seq<char>) -> int {
    let feed = first_index(text, '\n');
    if feed < text.len() {
        feed + 1
    } else {
        text.len() as int
    }
}

/// The lines of `text`, each with its line feed. What follows the last line
/// feed is a line too, unless it is empty.
pub open spec fn lines_of(text: Seq<char>) -> Seq<Seq<char>>
    decreases text.len(),
    via lines_of_decreases
{
    if text.len() == 0 {
        Seq::empty()
    } else {
        seq![text.take(line_len(text))] + lines_of(text.skip(line_len(text)))
    }
}

#[via_fn]
proof fn lines_of_decreases(text: Seq<char>) {
    if text.len() > 0 {
        lemma_line_len(text);
    }
}

/// The first line of a text that is not empty takes at least one character
/// and no more than the text has.
pub proof fn lemma_line_len(text: Seq<char>)
    requires
        text.len() > 0,
    ensures
        1 <= line_len(text) <= text.len(),
        forall|k: int| 0 <= k < line_len(text) - 1 ==> text[k] != '\n',
        line_len(text) < text.len() ==> text[line_len(text) - 1] == '\n',
{
    lemma_first_index(text, '\n', 0);
}

/// An input of a run: its name, and its bytes unless it could not be
/// opened.
#[derive(Debug)]
pub struct Input {
    pub name: String,
    pub content: Option<Vec<u8>>,
}

/// The texts of a sequence of strings.
pub open spec fn texts(lines: Seq<String>) -> Seq<Seq<char>> {
    lines.map_values(|line: String| line@)
}

/// Splits `text` into its lines; each line keeps its line feed.
pub fn split_lines(text: &str) -> (r: Vec<String>)
    ensures
        texts(r@) == lines_of(text@),
{
    let chars = chars_of(text);
    let n = chars.len();
    let mut out: Vec<String> = Vec::new();
    let mut start: usize = 0;
    let mut i: usize = 0;
    assert(text@.skip(0) =~= text@);
    assert(texts(out@) + lines_of(text@) =~= lines_of(text@));
    while i < n
        invariant
            start <= i <= n,
            n == chars.len(),
            chars@ == text@,
            i == n ==> start == n,
            forall|k: int| start <= k < i ==> text@[k] != '\n',
            lines_of(text@) == texts(out@) + lines_of(text@.skip(start as int)),
        decreases n - i,
    {
        let c = chars[i];
        i += 1;
        if c == '\n' || i == n {
            let ghost rest = text@.skip(start as int);
            let ghost before = texts(out@);
            proof {
                lemma_first_index(rest, '\n', 0);
                let feed = first_index(rest, '\n');
                if feed < i - 1 - start {
                    assert(rest[feed] == text@[start + feed]);
                }
                if c == '\n' {
                    assert(rest[i - 1 - start] == '\n');
                }
                assert(line_len(rest) == i - start);
                assert(rest.take(i - start) =~= chars@.subrange(start as int, i as int));
                assert(rest.skip(i - start) =~= text@.skip(i as int));
            }
            let line = string_of_range(chars.as_slice(), start, i);
            out.push(line);
            proof {
                assert(texts(out@) =~= before.push(line@));
                assert(before + (seq![line@] + lines_of(text@.skip(i as int))) =~= before.push(
                    line@,
                ) + lines_of(text@.skip(i as int)));
            }
            start = i;
        }
    }
    assert(text@.skip(n as int).len() == 0);
    assert(texts(out@) + Seq::<Seq<char>>::empty() =~= texts(out@));
    out
}

/// The length in bytes of the first `n` lines of `bytes`. A line ends with a
/// line feed or with the input.
pub open spec fn lines_len(bytes: Seq<u8>, n: nat) -> int
    decreases bytes.len(),
{
    if n == 0 || bytes.len() == 0 {
        0
    } else if bytes[0] == 10 {
        1 + lines_len(bytes.drop_first(), (n - 1) as nat)
    } else {
        1 + lines_len(bytes.drop_first(), n)
    }
}

/// Counts the bytes of the first `number_of_lines` lines of `file`.
pub fn measure_lines(file: &[u8], number_of_lines: usize) -> (end: usize)
    ensures
        end == lines_len(file@, number_of_lines as nat),
        end <= file.len(),
{
    let mut left: usize = number_of_lines;
    let mut i: usize = 0;
    assert(file@.skip(0) =~= file@);
    while i < file.len() && left > 0
        invariant
            i <= file.len(),
            lines_len(file@, number_of_lines as nat) == i + lines_len(
                file@.skip(i as int),
                left as nat,
            ),
        decreases file.len() - i,
    {
        assert(file@.skip(i as int).drop_first() =~= file@.skip(i + 1));
        if file[i] == 10 {
            left -= 1;
        }
        i += 1;
    }
    i
}

/// The lines of `bytes` as text, up to the first line that is not UTF-8.
pub open spec fn readable_lines(bytes: Seq<u8>) -> Seq<char>
    decreases bytes.len(),
    via readable_lines_decreases
{
    if bytes.len() == 0 {
        Seq::empty()
    } else {
        let line = bytes.take(lines_len(bytes, 1));
        if valid_utf8(line) {
            decode_utf8(line) + readable_lines(bytes.skip(lines_len(bytes, 1)))
        } else {
            Seq::empty()
        }
    }
}

#[via_fn]
proof fn readable_lines_decreases(bytes: Seq<u8>) {
    if bytes.len() > 0 {
        lemma_first_line(bytes);
    }
}

/// The first line of bytes that are not empty takes at least one byte and
/// no more than there are.
pub proof fn lemma_first_line(bytes: Seq<u8>)
    requires
        bytes.len() > 0,
    ensures
        1 <= lines_len(bytes, 1) <= bytes.len(),
    decreases bytes.len(),
{
    let rest = bytes.drop_first();
    if bytes[0] == 10 {
        assert(lines_len(rest, 0) == 0);
        assert(lines_len(bytes, 1) == 1 + lines_len(rest, 0));
    } else if rest.len() == 0 {
        assert(lines_len(rest, 1) == 0);
        assert(lines_len(bytes, 1) == 1 + lines_len(rest, 1));
    } else {
        lemma_first_line(rest);
        assert(lines_len(bytes, 1) == 1 + lines_len(rest, 1));
    }
}

/// Whether every line of `bytes` is UTF-8.
pub open spec fn lines_valid(bytes: Seq<u8>) -> bool
    decreases bytes.len(),
    via lines_valid_decreases
{
    if bytes.len() == 0 {
        true
    } else {
        valid_utf8(bytes.take(lines_len(bytes, 1))) && lines_valid(
            bytes.skip(lines_len(bytes, 1)),
        )
    }
}

#[via_fn]
proof fn lines_valid_decreases(bytes: Seq<u8>) {
    if bytes.len() > 0 {
        lemma_first_line(bytes);
    }
}

/// Reads `file` line by line as text and stops before the first line that
/// is not UTF-8. Returns the text of the lines read, and whether the file
/// was read to its end.
pub fn read_valid_lines(file: &[u8]) -> (r: (String, bool))
    ensures
        r.0@ == readable_lines(file@),
        r.1 == lines_valid(file@),
{
    let mut out = String::new();
    let mut i: usize = 0;
    assert(file@.skip(0) =~= file@);
    assert(out@ + readable_lines(file@) =~= readable_lines(file@));
    while i < file.len()
        invariant
            i <= file.len(),
            readable_lines(file@) == out@ + readable_lines(file@.skip(i as int)),
            lines_valid(file@) == lines_valid(file@.skip(i as int)),
        decreases file.len() - i,
    {
        let rest = slice_subrange(file, i, file.len());
        assert(rest@ =~= file@.skip(i as int));
        proof {
            lemma_first_line(rest@);
        }
        let len = measure_lines(rest, 1);
        let line = slice_subrange(rest, 0, len);
        assert(rest@.skip(len as int) =~= file@.skip(i + len));
        match from_utf8(line) {
            None => {
                assert(out@ + Seq::<char>::empty() =~= out@);
                return (out, false);
            },
            Some(text) => {
                proof {
                    encode_utf8_decode_utf8(text@);
                }
                let ghost before = out@;
                out.append(text);
                assert(before + (text@ + readable_lines(file@.skip(i + len))) =~= out@
                    + readable_lines(file@.skip(i + len)));
            },
        }
        i += len;
    }
    assert(out@ + Seq::<char>::empty() =~= out@);
    (out, true)
}

/// A line without its end: without the line feed that ends it and, if a
/// line feed was there, without a carriage return before it.
pub open spec fn without_line_end(line: Seq<char>) -> Seq<char> {
    if line.len() > 0 && line.last() == '\n' {
        let cut = line.drop_last();
        if cut.len() > 0 && cut.last() == '\r' {
            cut.drop_last()
        } else {
            cut
        }
    } else {
        line
    }
}

/// How many characters of `line` are left when its end is taken off.
pub fn content_len(line: &[char]) -> (r: usize)
    ensures
        r <= line.len(),
        line@.take(r as int) == without_line_end(line@),
{
    let n = line.len();
    if n > 0 && line[n - 1] == '\n' {
        if n > 1 && line[n - 2] == '\r' {
            assert(line@.take(n - 2) =~= line@.drop_last().drop_last());
            n - 2
        } else {
            assert(line@.take(n - 1) =~= line@.drop_last());
            n - 1
        }
    } else {
        assert(line@.take(n as int) =~= line@);
        n
    }
}

/// Whether `c` is white space: one of the characters with the Unicode
/// property `White_Space`.
pub open spec fn is_space(c: char) -> bool {
    let u = c as u32;
    ||| 0x09 <= u <= 0x0D
    ||| u == 0x20
    ||| u == 0x85
    ||| u == 0xA0
    ||| u == 0x1680
    ||| 0x2000 <= u <= 0x200A
    ||| u == 0x2028
    ||| u == 0x2029
    ||| u == 0x202F
    ||| u == 0x205F
    ||| u == 0x3000
}

/// Tells whether `c` is white space.
pub fn is_whitespace(c: char) -> (r: bool)
    ensures
        r == is_space(c),
{
    let u: u32 = c as u32;
    (0x09 <= u && u <= 0x0D) || u == 0x20 || u == 0x85 || u == 0xA0 || u == 0x1680 || (0x2000 <= u
        && u <= 0x200A) || u == 0x2028 || u == 0x2029 || u == 0x202F || u == 0x205F || u == 0x3000
}

/// The decimal digit for `d`, where `0 <= d <= 9`.
pub open spec fn digit_char(d: int) -> char {
    ('0' as u8 + d) as char
}

/// The decimal numeral of `n`, without leading zeros.
pub open spec fn decimal(n: nat) -> Seq<char>
    decreases n,
{
    if n < 10 {
        seq![digit_char(n as int)]
    } else {
        decimal(n / 10).push(digit_char((n % 10) as int))
    }
}

/// The decimal numeral of `n`.
pub fn decimal_string(n: u128) -> (r: String)
    ensures
        r@ == decimal(n as nat),
{
    let mut digits: Vec<char> = Vec::new();
    let mut rest: u128 = n;
    while rest >= 10
        invariant
            decimal(n as nat) == decimal(rest as nat) + digits@.reverse(),
        decreases rest,
    {
        let d: u8 = (rest % 10) as u8;
        let c: char = (48u8 + d) as char;
        assert(c == digit_char((rest % 10) as int));
        let ghost before = digits@;
        digits.push(c);
        proof {
            let low = decimal((rest / 10) as nat);
            assert(digits@.reverse() =~= seq![c] + before.reverse());
            assert(low.push(c) + before.reverse() =~= low + digits@.reverse());
        }
        rest = rest / 10;
    }
    let d: u8 = rest as u8;
    let c: char = (48u8 + d) as char;
    assert(c == digit_char(rest as int));
    let mut out = String::new();
    push_char(&mut out, c);
    let mut i: usize = digits.len();
    while i > 0
        invariant
            i <= digits.len(),
            out@ == seq![c] + digits@.reverse().take(digits.len() - i),
        decreases i,
    {
        i -= 1;
        push_char(&mut out, digits[i]);
        assert(digits@.reverse().take(digits.len() - i) =~= digits@.reverse().take(
            digits.len() - i - 1,
        ).push(digits@[i as int]));
    }
    assert(digits@.reverse().take(digits.len() as int) =~= digits@.reverse());
    out
}

/// `n` spaces; none if `n` is not positive.
pub open spec fn spaces(n: int) -> Seq<char> {
    Seq::new(
        if n > 0 {
            n as nat
        } else {
            0
        },
        |i: int| ' ',
    )
}

/// `text` moved to the right end of a field of `width` characters; a text
/// that is longer than the field is left as it is.
pub open spec fn align_right(text: Seq<char>, width: nat) -> Seq<char> {
    spaces(width - text.len()) + text
}

/// `text` at the left end of a field of `width` characters.
pub open spec fn align_left(text: Seq<char>, width: nat) -> Seq<char> {
    text + spaces(width - text.len())
}

/// `text` in the middle of a field of `width` characters; where the padding
/// cannot be split evenly, the right side gets the larger share.
pub open spec fn align_center(text: Seq<char>, width: nat) -> Seq<char> {
    let pad = width - text.len();
    spaces(pad / 2) + text + spaces(pad - pad / 2)
}

/// Appends `n` spaces to `out`.
pub fn push_spaces(out: &mut String, n: usize)
    ensures
        final(out)@ == old(out)@ + spaces(n as int),
{
    let mut i: usize = 0;
    assert(out@ =~= old(out)@ + spaces(0));
    while i < n
        invariant
            i <= n,
            out@ == old(out)@ + spaces(i as int),
        decreases n - i,
    {
        push_char(out, ' ');
        i += 1;
        assert(spaces(i as int) =~= spaces(i - 1).push(' '));
        assert(out@ =~= old(out)@ + spaces(i as int));
    }
}

/// Pads `text` with spaces on the left to `width` characters.
pub fn pad_left(text: &str, width: usize) -> (r: String)
    ensures
        r@ == align_right(text@, width as nat),
{
    let len = text.unicode_len();
    let mut out = String::new();
    if len < width {
        push_spaces(&mut out, width - len);
    }
    out.append(text);
    assert(out@ =~= align_right(text@, width as nat));
    out
}

/// Pads `text` with spaces on the right to `width` characters.
pub fn pad_right(text: &str, width: usize) -> (r: String)
    ensures
        r@ == align_left(text@, width as nat),
{
    let len = text.unicode_len();
    let mut out = String::from_str(text);
    if len < width {
        push_spaces(&mut out, width - len);
    }
    assert(out@ =~= align_left(text@, width as nat));
    out
}

/// Pads `text` with spaces on both sides to `width` characters.
pub fn pad_center(text: &str, width: usize) -> (r: String)
    ensures
        r@ == align_center(text@, width as nat),
{
    let len = text.unicode_len();
    let mut out = String::new();
    if len < width {
        let pad = width - len;
        push_spaces(&mut out, pad / 2);
        out.append(text);
        push_spaces(&mut out, pad - pad / 2);
    } else {
        out.append(text);
    }
    assert(out@ =~= align_center(text@, width as nat));
    out
}

} // verus!
