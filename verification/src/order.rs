//! The order of names: byte by byte over their UTF-8 encoding, a shorter
//! name before every longer name that starts with it.

use vstd::prelude::*;
use vstd::utf8::encode_utf8;
use vstd::utf8::encode_utf8_decode_utf8;

verus! {

/// How one name stands to another in the order of names.
#[derive(Clone, Copy, Debug, PartialEq, Eq, Structural)]
pub enum Rank {
    /// The first name comes before the second.
    Before,
    /// The two names are spelled alike.
    Same,
    /// The first name comes after the second.
    After,
}

/// `a` and `b` agree on their first `k` bytes, and there `a` ends while `b`
/// goes on, or `a` holds the smaller byte.
pub open spec fn ordered_at(a: Seq<u8>, b: Seq<u8>, k: int) -> bool {
    &&& 0 <= k <= a.len()
    &&& k < b.len()
    &&& forall|i: int| 0 <= i < k ==> a[i] == b[i]
    &&& k < a.len() ==> a[k] < b[k]
}

/// `a` comes strictly before `b` in the lexicographic order of bytes.
pub open spec fn bytes_precede(a: Seq<u8>, b: Seq<u8>) -> bool {
    exists|k: int| ordered_at(a, b, k)
}

/// `a` comes strictly before `b` in the order of names.
pub open spec fn precedes(a: Seq<char>, b: Seq<char>) -> bool {
    bytes_precede(encode_utf8(a), encode_utf8(b))
}

/// Of two byte strings at most one comes before the other.
pub proof fn lemma_bytes_precede_asymmetric(a: Seq<u8>, b: Seq<u8>)
    requires
        bytes_precede(a, b),
    ensures
        !bytes_precede(b, a),
{
    let k = choose|k: int| ordered_at(a, b, k);
    if bytes_precede(b, a) {
        let m = choose|m: int| ordered_at(b, a, m);
        if k < m {
            assert(b[k] == a[k]);
        } else if m < k {
            assert(a[m] == b[m]);
        }
    }
}

/// The lexicographic order of bytes is transitive.
pub proof fn lemma_bytes_precede_transitive(a: Seq<u8>, b: Seq<u8>, c: Seq<u8>)
    requires
        bytes_precede(a, b),
        bytes_precede(b, c),
    ensures
        bytes_precede(a, c),
{
    let k = choose|k: int| ordered_at(a, b, k);
    let m = choose|m: int| ordered_at(b, c, m);
    let n = if k <= m { k } else { m };
    assert(ordered_at(a, c, n)) by {
        assert forall|i: int| 0 <= i < n implies a[i] == c[i] by {
            assert(a[i] == b[i]);
            assert(b[i] == c[i]);
        }
        if n < a.len() {
            if k < m {
                assert(b[k] == c[k]);
            } else if m < k {
                assert(a[m] == b[m]);
            }
        }
    }
}

/// Two byte strings are equal, or one comes before the other.
pub proof fn lemma_bytes_precede_total(a: Seq<u8>, b: Seq<u8>)
    ensures
        a == b || bytes_precede(a, b) || bytes_precede(b, a),
    decreases a.len(),
{
    if a.len() == 0 {
        if b.len() == 0 {
            assert(a =~= b);
        } else {
            assert(ordered_at(a, b, 0));
        }
    } else if b.len() == 0 {
        assert(ordered_at(b, a, 0));
    } else if a[0] < b[0] {
        assert(ordered_at(a, b, 0));
    } else if b[0] < a[0] {
        assert(ordered_at(b, a, 0));
    } else {
        let x = a.drop_first();
        let y = b.drop_first();
        lemma_bytes_precede_total(x, y);
        if x == y {
            assert forall|i: int| 0 <= i < a.len() implies a[i] == b[i] by {
                if i > 0 {
                    assert(x[i - 1] == y[i - 1]);
                }
            }
            assert(a.len() == x.len() + 1 && b.len() == y.len() + 1);
            assert(a =~= b);
        } else if bytes_precede(x, y) {
            let k = choose|k: int| ordered_at(x, y, k);
            assert(ordered_at(a, b, k + 1)) by {
                assert forall|i: int| 0 <= i < k + 1 implies a[i] == b[i] by {
                    if i > 0 {
                        assert(x[i - 1] == y[i - 1]);
                    }
                }
                if k + 1 < a.len() {
                    assert(x[k] < y[k]);
                }
            }
        } else {
            let k = choose|k: int| ordered_at(y, x, k);
            assert(ordered_at(b, a, k + 1)) by {
                assert forall|i: int| 0 <= i < k + 1 implies b[i] == a[i] by {
                    if i > 0 {
                        assert(y[i - 1] == x[i - 1]);
                    }
                }
                if k + 1 < b.len() {
                    assert(y[k] < x[k]);
                }
            }
        }
    }
}

/// Names with the same encoding are the same name.
pub proof fn lemma_encoding_injective(a: Seq<char>, b: Seq<char>)
    requires
        encode_utf8(a) == encode_utf8(b),
    ensures
        a == b,
{
    encode_utf8_decode_utf8(a);
    encode_utf8_decode_utf8(b);
}

/// The order of names is strict: no name comes before itself.
pub proof fn lemma_precedes_irreflexive(a: Seq<char>)
    ensures
        !precedes(a, a),
{
}

/// Of two names at most one comes before the other.
pub proof fn lemma_precedes_asymmetric(a: Seq<char>, b: Seq<char>)
    requires
        precedes(a, b),
    ensures
        !precedes(b, a),
{
    lemma_bytes_precede_asymmetric(encode_utf8(a), encode_utf8(b));
}

/// The order of names is transitive.
pub proof fn lemma_precedes_transitive(a: Seq<char>, b: Seq<char>, c: Seq<char>)
    requires
        precedes(a, b),
        precedes(b, c),
    ensures
        precedes(a, c),
{
    lemma_bytes_precede_transitive(encode_utf8(a), encode_utf8(b), encode_utf8(c));
}

/// The order of names is total: two different names are always ordered.
pub proof fn lemma_precedes_total(a: Seq<char>, b: Seq<char>)
    ensures
        a == b || precedes(a, b) || precedes(b, a),
{
    lemma_bytes_precede_total(encode_utf8(a), encode_utf8(b));
    if encode_utf8(a) == encode_utf8(b) {
        lemma_encoding_injective(a, b);
    }
}

/// What `compare` answers for the names `a` and `b`.
pub open spec fn rank_of(a: Seq<char>, b: Seq<char>) -> Rank {
    if a == b {
        Rank::Same
    } else if precedes(a, b) {
        Rank::Before
    } else {
        Rank::After
    }
}

/// Compares two names in the order of names.
#[verifier::loop_isolation(false)]
pub fn compare(a: &str, b: &str) -> (rank: Rank)
    ensures
        rank == rank_of(a@, b@),
        rank == Rank::Before <==> precedes(a@, b@),
        rank == Rank::Same <==> a@ == b@,
        rank == Rank::After <==> precedes(b@, a@),
{
    let x = a.as_bytes();
    let y = b.as_bytes();
    proof {
        lemma_precedes_total(a@, b@);
        lemma_precedes_irreflexive(a@);
        if precedes(a@, b@) {
            lemma_precedes_asymmetric(a@, b@);
        }
    }
    let mut i: usize = 0;
    while i < x.len() && i < y.len()
        invariant
            i <= x.len(),
            i <= y.len(),
            forall|j: int| 0 <= j < i ==> x@[j] == y@[j],
        decreases x.len() - i,
    {
        if x[i] < y[i] {
            assert(ordered_at(x@, y@, i as int));
            return Rank::Before;
        }
        if y[i] < x[i] {
            assert(ordered_at(y@, x@, i as int));
            return Rank::After;
        }
        i += 1;
    }
    if x.len() < y.len() {
        assert(ordered_at(x@, y@, i as int));
        Rank::Before
    } else if y.len() < x.len() {
        assert(ordered_at(y@, x@, i as int));
        Rank::After
    } else {
        proof {
            assert(x@ =~= y@);
            lemma_encoding_injective(a@, b@);
        }
        Rank::Same
    }
}

} // verus!
