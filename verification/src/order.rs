//! The lexicographic order on byte strings.
//!
//! Strings are compared by the bytes of their UTF-8 encoding, with no regard
//! to locale: a string that is a proper prefix of another precedes it, and
//! otherwise the first byte in which two strings differ decides.

use vstd::prelude::*;

verus! {

/// The result of comparing two byte strings.
#[derive(Clone, Copy, Debug, PartialEq, Eq, Structural)]
pub enum KeyOrder {
    Less,
    Equal,
    Greater,
}

/// `a` and `b` agree on their first `i` bytes, and at index `i` either `a`
/// has ended while `b` goes on, or `a` holds the smaller byte.
pub open spec fn less_at(a: Seq<u8>, b: Seq<u8>, i: int) -> bool {
    &&& 0 <= i <= a.len()
    &&& i < b.len()
    &&& forall|k: int| 0 <= k < i ==> a[k] == b[k]
    &&& (i == a.len() || a[i] < b[i])
}

/// `a` comes strictly before `b` in lexicographic order.
pub open spec fn bytes_less(a: Seq<u8>, b: Seq<u8>) -> bool {
    exists|i: int| less_at(a, b, i)
}

/// No byte string precedes itself.
pub proof fn lemma_less_irreflexive(a: Seq<u8>)
    ensures
        !bytes_less(a, a),
{
}

/// Of two byte strings at most one precedes the other.
pub proof fn lemma_less_asymmetric(a: Seq<u8>, b: Seq<u8>)
    requires
        bytes_less(a, b),
    ensures
        !bytes_less(b, a),
{
    let i = choose|i: int| less_at(a, b, i);
    if bytes_less(b, a) {
        let j = choose|j: int| less_at(b, a, j);
        if i < j {
            assert(b[i] == a[i]);
        } else if j < i {
            assert(a[j] == b[j]);
        }
    }
}

/// The order is transitive.
pub proof fn lemma_less_transitive(a: Seq<u8>, b: Seq<u8>, c: Seq<u8>)
    requires
        bytes_less(a, b),
        bytes_less(b, c),
    ensures
        bytes_less(a, c),
{
    let i = choose|i: int| less_at(a, b, i);
    let j = choose|j: int| less_at(b, c, j);
    let m = if i <= j { i } else { j };
    assert forall|k: int| 0 <= k < m implies a[k] == c[k] by {
        assert(a[k] == b[k]);
        assert(b[k] == c[k]);
    }
    if i < j {
        assert(b[i] == c[i]);
    } else if j < i {
        assert(a[j] == b[j]);
    }
    assert(less_at(a, c, m));
}

/// Two different byte strings are ordered one way or the other.
pub proof fn lemma_less_total(a: Seq<u8>, b: Seq<u8>)
    ensures
        a == b || bytes_less(a, b) || bytes_less(b, a),
    decreases a.len(),
{
    if a.len() == 0 {
        if b.len() == 0 {
            assert(a =~= b);
        } else {
            assert(less_at(a, b, 0));
        }
    } else if b.len() == 0 {
        assert(less_at(b, a, 0));
    } else if a[0] < b[0] {
        assert(less_at(a, b, 0));
    } else if b[0] < a[0] {
        assert(less_at(b, a, 0));
    } else {
        let ta = a.drop_first();
        let tb = b.drop_first();
        lemma_less_total(ta, tb);
        if ta == tb {
            assert(a =~= seq![a[0]] + ta);
            assert(b =~= seq![b[0]] + tb);
        } else if bytes_less(ta, tb) {
            let i = choose|i: int| less_at(ta, tb, i);
            assert forall|k: int| 0 <= k < i + 1 implies a[k] == b[k] by {
                if k > 0 {
                    assert(ta[k - 1] == tb[k - 1]);
                }
            }
            assert(i < ta.len() ==> ta[i] == a[i + 1]);
            assert(tb[i] == b[i + 1]);
            assert(less_at(a, b, i + 1));
        } else {
            let i = choose|i: int| less_at(tb, ta, i);
            assert forall|k: int| 0 <= k < i + 1 implies b[k] == a[k] by {
                if k > 0 {
                    assert(tb[k - 1] == ta[k - 1]);
                }
            }
            assert(i < tb.len() ==> tb[i] == b[i + 1]);
            assert(ta[i] == a[i + 1]);
            assert(less_at(b, a, i + 1));
        }
    }
}

/// Compares two byte strings lexicographically.
pub fn compare_bytes(a: &[u8], b: &[u8]) -> (r: KeyOrder)
    ensures
        r == KeyOrder::Equal <==> a@ == b@,
        r == KeyOrder::Less <==> bytes_less(a@, b@),
        r == KeyOrder::Greater <==> bytes_less(b@, a@),
{
    let n: usize = if a.len() <= b.len() { a.len() } else { b.len() };
    let mut i: usize = 0;
    while i < n
        invariant
            i <= n,
            n <= a.len(),
            n <= b.len(),
            n == a.len() || n == b.len(),
            forall|k: int| 0 <= k < i ==> a@[k] == b@[k],
        decreases n - i,
    {
        if a[i] < b[i] {
            proof {
                assert(less_at(a@, b@, i as int));
                lemma_less_asymmetric(a@, b@);
            }
            return KeyOrder::Less;
        }
        if a[i] > b[i] {
            proof {
                assert(less_at(b@, a@, i as int));
                lemma_less_asymmetric(b@, a@);
            }
            return KeyOrder::Greater;
        }
        i += 1;
    }
    if a.len() < b.len() {
        proof {
            assert(less_at(a@, b@, n as int));
            lemma_less_asymmetric(a@, b@);
        }
        KeyOrder::Less
    } else if b.len() < a.len() {
        proof {
            assert(less_at(b@, a@, n as int));
            lemma_less_asymmetric(b@, a@);
        }
        KeyOrder::Greater
    } else {
        proof {
            assert(a@ =~= b@);
            lemma_less_irreflexive(a@);
        }
        KeyOrder::Equal
    }
}

} // verus!
