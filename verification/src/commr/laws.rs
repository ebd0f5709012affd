//! What holds of every comparison.
//!
//! The statements here are about the specification of the walk,
//! [`merge`], and of the report, [`output`]; the executable functions are
//! proved to compute exactly these.

use super::format::render;
use super::merge::classify_spec;
use super::merge::head;
use super::merge::key_of;
use super::merge::merge;
use super::merge::output;
use super::Classification;
use super::Config;
use crate::order::bytes_less;
use crate::order::lemma_less_irreflexive;
use crate::order::lemma_less_total;
use vstd::prelude::*;

verus! {

/// The lines are sorted by their comparison keys: no line has a key that
/// precedes the key of a line before it.
pub open spec fn sorted(lines: Seq<Seq<char>>, case_insensitive: bool) -> bool {
    forall|i: int, j: int|
        0 <= i < j < lines.len() ==> !bytes_less(
            #[trigger] key_of(lines[j], case_insensitive),
            #[trigger] key_of(lines[i], case_insensitive),
        )
}

/// How many lines of `lines` have the comparison key `key`.
pub open spec fn occurrences(lines: Seq<Seq<char>>, key: Seq<u8>, case_insensitive: bool) -> nat
    decreases lines.len(),
{
    if lines.len() == 0 {
        0
    } else {
        let here: nat = if key_of(lines[0], case_insensitive) == key {
            1
        } else {
            0
        };
        here + occurrences(lines.drop_first(), key, case_insensitive)
    }
}

/// How often `key` is common to `a` and `b`, where a line of one input is
/// matched with at most one line of the other.
pub open spec fn shared(
    a: Seq<Seq<char>>,
    b: Seq<Seq<char>>,
    key: Seq<u8>,
    case_insensitive: bool,
) -> nat {
    let in_a = occurrences(a, key, case_insensitive);
    let in_b = occurrences(b, key, case_insensitive);
    if in_a <= in_b {
        in_a
    } else {
        in_b
    }
}

/// How many of `entries` have the class `class` and the comparison key `key`.
pub open spec fn tally(
    entries: Seq<(Classification, Seq<char>)>,
    class: Classification,
    key: Seq<u8>,
    case_insensitive: bool,
) -> nat
    decreases entries.len(),
{
    if entries.len() == 0 {
        0
    } else {
        let here: nat = if entries[0].0 == class && key_of(entries[0].1, case_insensitive) == key {
            1
        } else {
            0
        };
        here + tally(entries.drop_first(), class, key, case_insensitive)
    }
}

/// How many of `entries` have the class `class`.
pub open spec fn class_count(
    entries: Seq<(Classification, Seq<char>)>,
    class: Classification,
) -> nat
    decreases entries.len(),
{
    if entries.len() == 0 {
        0
    } else {
        let here: nat = if entries[0].0 == class {
            1
        } else {
            0
        };
        here + class_count(entries.drop_first(), class)
    }
}

/// The texts of the entries that consume a line of the first input, in order.
pub open spec fn taken_from_first(entries: Seq<(Classification, Seq<char>)>) -> Seq<Seq<char>>
    decreases entries.len(),
{
    if entries.len() == 0 {
        Seq::empty()
    } else if entries[0].0.takes_first() {
        seq![entries[0].1] + taken_from_first(entries.drop_first())
    } else {
        taken_from_first(entries.drop_first())
    }
}

/// The comparison keys of the entries that consume a line of the second
/// input, in order.
pub open spec fn keys_taken_from_second(
    entries: Seq<(Classification, Seq<char>)>,
    case_insensitive: bool,
) -> Seq<Seq<u8>>
    decreases entries.len(),
{
    if entries.len() == 0 {
        Seq::empty()
    } else if entries[0].0.takes_second() {
        seq![key_of(entries[0].1, case_insensitive)] + keys_taken_from_second(
            entries.drop_first(),
            case_insensitive,
        )
    } else {
        keys_taken_from_second(entries.drop_first(), case_insensitive)
    }
}

/// The comparison keys of `lines`, in order.
pub open spec fn keys(lines: Seq<Seq<char>>, case_insensitive: bool) -> Seq<Seq<u8>> {
    lines.map_values(|line: Seq<char>| key_of(line, case_insensitive))
}

/// The first entry of a non-empty walk and the inputs that remain after it.
proof fn lemma_merge_head(a: Seq<Seq<char>>, b: Seq<Seq<char>>, case_insensitive: bool)
    requires
        a.len() + b.len() > 0,
    ensures
        classify_spec(head(a), head(b), case_insensitive) is Some,
        ({
            let class = classify_spec(head(a), head(b), case_insensitive)->0;
            let rest_a = if class.takes_first() {
                a.drop_first()
            } else {
                a
            };
            let rest_b = if class.takes_second() {
                b.drop_first()
            } else {
                b
            };
            let m = merge(a, b, case_insensitive);
            &&& class.takes_first() ==> a.len() > 0
            &&& class.takes_second() ==> b.len() > 0
            &&& m.len() > 0
            &&& m[0].0 == class
            &&& m[0].1 == (if class.takes_first() {
                a[0]
            } else {
                b[0]
            })
            &&& m.drop_first() == merge(rest_a, rest_b, case_insensitive)
        }),
{
    let class = classify_spec(head(a), head(b), case_insensitive)->0;
    let rest_a = if class.takes_first() {
        a.drop_first()
    } else {
        a
    };
    let rest_b = if class.takes_second() {
        b.drop_first()
    } else {
        b
    };
    let m = merge(a, b, case_insensitive);
    assert(m.drop_first() =~= merge(rest_a, rest_b, case_insensitive));
}

/// Every line of the first input is consumed exactly once and in order, and
/// so is every line of the second input: the entries that take a line of the
/// first input carry the texts of the first input, and the entries that take
/// a line of the second input carry the keys of the second input.
pub proof fn lemma_each_line_consumed_once(
    a: Seq<Seq<char>>,
    b: Seq<Seq<char>>,
    case_insensitive: bool,
)
    ensures
        taken_from_first(merge(a, b, case_insensitive)) == a,
        keys_taken_from_second(merge(a, b, case_insensitive), case_insensitive) == keys(
            b,
            case_insensitive,
        ),
    decreases a.len() + b.len(),
{
    let m = merge(a, b, case_insensitive);
    if a.len() + b.len() == 0 {
        assert(taken_from_first(m) =~= a);
        assert(keys_taken_from_second(m, case_insensitive) =~= keys(b, case_insensitive));
    } else {
        lemma_merge_head(a, b, case_insensitive);
        let class = m[0].0;
        let rest_a = if class.takes_first() {
            a.drop_first()
        } else {
            a
        };
        let rest_b = if class.takes_second() {
            b.drop_first()
        } else {
            b
        };
        lemma_each_line_consumed_once(rest_a, rest_b, case_insensitive);
        if class.takes_first() {
            assert(seq![a[0]] + a.drop_first() =~= a);
        }
        if class.takes_second() {
            assert(seq![key_of(b[0], case_insensitive)] + keys(b.drop_first(), case_insensitive)
                =~= keys(b, case_insensitive));
        }
    }
}

/// The walk emits one entry for each line of either input, except that a
/// pair of matching lines is emitted once: the number of entries is the sum
/// of the two lengths less the number of entries common to both.
pub proof fn lemma_merge_length(a: Seq<Seq<char>>, b: Seq<Seq<char>>, case_insensitive: bool)
    ensures
        class_count(merge(a, b, case_insensitive), Classification::OnlyInFirst) + class_count(
            merge(a, b, case_insensitive),
            Classification::InBoth,
        ) == a.len(),
        class_count(merge(a, b, case_insensitive), Classification::OnlyInSecond) + class_count(
            merge(a, b, case_insensitive),
            Classification::InBoth,
        ) == b.len(),
        merge(a, b, case_insensitive).len() == class_count(
            merge(a, b, case_insensitive),
            Classification::OnlyInFirst,
        ) + class_count(merge(a, b, case_insensitive), Classification::OnlyInSecond) + class_count(
            merge(a, b, case_insensitive),
            Classification::InBoth,
        ),
        merge(a, b, case_insensitive).len() == a.len() + b.len() - class_count(
            merge(a, b, case_insensitive),
            Classification::InBoth,
        ),
    decreases a.len() + b.len(),
{
    if a.len() + b.len() > 0 {
        lemma_merge_head(a, b, case_insensitive);
        let class = merge(a, b, case_insensitive)[0].0;
        let rest_a = if class.takes_first() {
            a.drop_first()
        } else {
            a
        };
        let rest_b = if class.takes_second() {
            b.drop_first()
        } else {
            b
        };
        lemma_merge_length(rest_a, rest_b, case_insensitive);
    }
}

/// A key that no line has occurs zero times.
proof fn lemma_absent_key(lines: Seq<Seq<char>>, key: Seq<u8>, case_insensitive: bool)
    requires
        forall|i: int|
            0 <= i < lines.len() ==> #[trigger] key_of(lines[i], case_insensitive) != key,
    ensures
        occurrences(lines, key, case_insensitive) == 0,
    decreases lines.len(),
{
    if lines.len() > 0 {
        assert(key_of(lines[0], case_insensitive) != key);
        let rest = lines.drop_first();
        assert forall|i: int| 0 <= i < rest.len() implies #[trigger] key_of(
            rest[i],
            case_insensitive,
        ) != key by {
            assert(rest[i] == lines[i + 1]);
            assert(key_of(lines[i + 1], case_insensitive) != key);
        }
        lemma_absent_key(rest, key, case_insensitive);
    }
}

/// In sorted lines, a key that precedes the key of the first line does not
/// occur.
proof fn lemma_key_before_first(lines: Seq<Seq<char>>, key: Seq<u8>, case_insensitive: bool)
    requires
        sorted(lines, case_insensitive),
        lines.len() > 0,
        bytes_less(key, key_of(lines[0], case_insensitive)),
    ensures
        occurrences(lines, key, case_insensitive) == 0,
{
    assert forall|i: int| 0 <= i < lines.len() implies #[trigger] key_of(
        lines[i],
        case_insensitive,
    ) != key by {
        if i == 0 {
            lemma_less_irreflexive(key);
        } else {
            assert(!bytes_less(
                key_of(lines[i], case_insensitive),
                key_of(lines[0], case_insensitive),
            ));
        }
    }
    lemma_absent_key(lines, key, case_insensitive);
}

/// What is left of sorted lines after the first is sorted.
proof fn lemma_sorted_rest(lines: Seq<Seq<char>>, case_insensitive: bool)
    requires
        sorted(lines, case_insensitive),
        lines.len() > 0,
    ensures
        sorted(lines.drop_first(), case_insensitive),
{
    let rest = lines.drop_first();
    assert forall|i: int, j: int| 0 <= i < j < rest.len() implies !bytes_less(
        #[trigger] key_of(rest[j], case_insensitive),
        #[trigger] key_of(rest[i], case_insensitive),
    ) by {
        assert(rest[i] == lines[i + 1]);
        assert(rest[j] == lines[j + 1]);
        assert(!bytes_less(
            key_of(lines[j + 1], case_insensitive),
            key_of(lines[i + 1], case_insensitive),
        ));
    }
}

/// For sorted inputs the walk computes the three-way partition of the lines
/// by key. For every key, the lines with that key are matched one to one as
/// far as both inputs have them: as many entries are common to both as the
/// key occurs in each input, and what an input has beyond that is reported
/// as found in that input only.
pub proof fn lemma_sorted_partition(
    a: Seq<Seq<char>>,
    b: Seq<Seq<char>>,
    key: Seq<u8>,
    case_insensitive: bool,
)
    requires
        sorted(a, case_insensitive),
        sorted(b, case_insensitive),
    ensures
        tally(merge(a, b, case_insensitive), Classification::InBoth, key, case_insensitive)
            == shared(a, b, key, case_insensitive),
        tally(merge(a, b, case_insensitive), Classification::OnlyInFirst, key, case_insensitive)
            == occurrences(a, key, case_insensitive) - shared(a, b, key, case_insensitive),
        tally(merge(a, b, case_insensitive), Classification::OnlyInSecond, key, case_insensitive)
            == occurrences(b, key, case_insensitive) - shared(a, b, key, case_insensitive),
    decreases a.len() + b.len(),
{
    if a.len() + b.len() > 0 {
        lemma_merge_head(a, b, case_insensitive);
        let class = merge(a, b, case_insensitive)[0].0;
        let rest_a = if class.takes_first() {
            a.drop_first()
        } else {
            a
        };
        let rest_b = if class.takes_second() {
            b.drop_first()
        } else {
            b
        };
        if class.takes_first() {
            lemma_sorted_rest(a, case_insensitive);
        }
        if class.takes_second() {
            lemma_sorted_rest(b, case_insensitive);
        }
        lemma_sorted_partition(rest_a, rest_b, key, case_insensitive);
        if a.len() > 0 && b.len() > 0 {
            let ka = key_of(a[0], case_insensitive);
            let kb = key_of(b[0], case_insensitive);
            if class == Classification::OnlyInFirst {
                if ka == key {
                    lemma_key_before_first(b, key, case_insensitive);
                }
            } else if class == Classification::OnlyInSecond {
                lemma_less_total(ka, kb);
                if kb == key {
                    lemma_key_before_first(a, key, case_insensitive);
                }
            }
        }
    }
}

/// Once the second input is exhausted, the lines of the first are all
/// reported as found in the first only, in their order; and the other way
/// round.
pub proof fn lemma_one_input_exhausted(lines: Seq<Seq<char>>, case_insensitive: bool)
    ensures
        merge(lines, Seq::empty(), case_insensitive) == lines.map_values(
            |line: Seq<char>| (Classification::OnlyInFirst, line),
        ),
        merge(Seq::empty(), lines, case_insensitive) == lines.map_values(
            |line: Seq<char>| (Classification::OnlyInSecond, line),
        ),
    decreases lines.len(),
{
    let none = Seq::<Seq<char>>::empty();
    if lines.len() > 0 {
        lemma_one_input_exhausted(lines.drop_first(), case_insensitive);
    }
    assert(merge(lines, none, case_insensitive) =~= lines.map_values(
        |line: Seq<char>| (Classification::OnlyInFirst, line),
    ));
    assert(merge(none, lines, case_insensitive) =~= lines.map_values(
        |line: Seq<char>| (Classification::OnlyInSecond, line),
    ));
}

/// With all three columns suppressed the report is empty, whatever the
/// inputs hold.
pub proof fn lemma_all_suppressed(entries: Seq<(Classification, Seq<char>)>, config: &Config)
    requires
        config.suppress_first,
        config.suppress_second,
        config.suppress_both,
    ensures
        output(entries, config) == Seq::<Seq<char>>::empty(),
    decreases entries.len(),
{
    if entries.len() > 0 {
        lemma_all_suppressed(entries.drop_last(), config);
    }
}

/// With the first column suppressed and the second shown, a line found only
/// in the second input is written without a delimiter before it.
pub proof fn lemma_second_column_moves_left(text: Seq<char>, config: &Config)
    requires
        config.suppress_first,
        !config.suppress_second,
    ensures
        render(Classification::OnlyInSecond, text, config) == Some(text),
{
    assert(Seq::<char>::empty() + text =~= text);
}

} // verus!
