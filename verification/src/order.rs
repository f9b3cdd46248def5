//! The order of names: byte by byte over their UTF-8 encoding, a proper
//! prefix first. This is how the runtime orders two strings.

use vstd::prelude::*;

verus! {

/// How one value stands to another in an order.
#[derive(Clone, Copy, Debug, PartialEq, Eq, Structural)]
pub enum Rank {
    Before,
    Same,
    After,
}

/// `a` and `b` agree on their first `k` bytes, and there `a` ends or holds
/// the smaller byte.
pub open spec fn parts_at(a: Seq<u8>, b: Seq<u8>, k: int) -> bool {
    &&& 0 <= k <= a.len()
    &&& k < b.len()
    &&& a.take(k) == b.take(k)
    &&& (k == a.len() || a[k] < b[k])
}

/// `a` comes before `b` in the lexicographic order of bytes.
pub open spec fn bytes_before(a: Seq<u8>, b: Seq<u8>) -> bool {
    exists|k: int| parts_at(a, b, k)
}

/// Nothing comes before itself.
pub proof fn lemma_bytes_irreflexive(a: Seq<u8>)
    ensures
        !bytes_before(a, a),
{
}

/// Of two sequences at most one comes before the other.
pub proof fn lemma_bytes_asymmetric(a: Seq<u8>, b: Seq<u8>)
    ensures
        !(bytes_before(a, b) && bytes_before(b, a)),
{
    if bytes_before(a, b) && bytes_before(b, a) {
        let k = choose|k: int| parts_at(a, b, k);
        let l = choose|l: int| parts_at(b, a, l);
        if k < l {
            assert(b.take(l)[k] == a.take(l)[k]);
        } else if l < k {
            assert(a.take(k)[l] == b.take(k)[l]);
        }
    }
}

/// The order is transitive.
pub proof fn lemma_bytes_transitive(a: Seq<u8>, b: Seq<u8>, c: Seq<u8>)
    requires
        bytes_before(a, b),
        bytes_before(b, c),
    ensures
        bytes_before(a, c),
{
    let k = choose|k: int| parts_at(a, b, k);
    let l = choose|l: int| parts_at(b, c, l);
    let m = if k <= l {
        k
    } else {
        l
    };
    assert(a.take(m) =~= c.take(m)) by {
        assert forall|j: int| 0 <= j < m implies a[j] == c[j] by {
            assert(a.take(k)[j] == b.take(k)[j]);
            assert(b.take(l)[j] == c.take(l)[j]);
        }
    }
    if k < l {
        assert(b.take(l)[k] == c.take(l)[k]);
    } else if l < k {
        assert(a.take(k)[l] == b.take(k)[l]);
    }
    assert(parts_at(a, c, m));
}

proof fn lemma_parting_from(a: Seq<u8>, b: Seq<u8>, i: int)
    requires
        0 <= i <= a.len(),
        i <= b.len(),
        a.take(i) == b.take(i),
    ensures
        a == b || bytes_before(a, b) || bytes_before(b, a),
    decreases a.len() - i,
{
    if i == a.len() {
        if i == b.len() {
            assert(a.take(i) =~= a);
            assert(b.take(i) =~= b);
        } else {
            assert(parts_at(a, b, i));
        }
    } else if i == b.len() {
        assert(parts_at(b, a, i));
    } else if a[i] < b[i] {
        assert(parts_at(a, b, i));
    } else if b[i] < a[i] {
        assert(parts_at(b, a, i));
    } else {
        assert(a.take(i + 1) =~= a.take(i).push(a[i]));
        assert(b.take(i + 1) =~= b.take(i).push(b[i]));
        lemma_parting_from(a, b, i + 1);
    }
}

/// The order is total: two different sequences are ordered one way or the
/// other.
pub proof fn lemma_bytes_total(a: Seq<u8>, b: Seq<u8>)
    ensures
        a == b || bytes_before(a, b) || bytes_before(b, a),
{
    assert(a.take(0) =~= b.take(0));
    lemma_parting_from(a, b, 0);
}

/// Compares two byte strings.
pub fn rank_bytes(a: &[u8], b: &[u8]) -> (r: Rank)
    ensures
        r == Rank::Before <==> bytes_before(a@, b@),
        r == Rank::Same <==> a@ == b@,
        r == Rank::After <==> bytes_before(b@, a@),
{
    proof {
        lemma_bytes_asymmetric(a@, b@);
        lemma_bytes_irreflexive(a@);
    }
    let mut i: usize = 0;
    while i < a.len() && i < b.len()
        invariant
            i <= a.len(),
            i <= b.len(),
            a@.take(i as int) == b@.take(i as int),
        decreases a.len() - i,
    {
        if a[i] < b[i] {
            proof {
                assert(parts_at(a@, b@, i as int));
                lemma_bytes_asymmetric(a@, b@);
            }
            return Rank::Before;
        }
        if b[i] < a[i] {
            proof {
                assert(parts_at(b@, a@, i as int));
                lemma_bytes_asymmetric(a@, b@);
            }
            return Rank::After;
        }
        assert(a@.take(i + 1) =~= a@.take(i as int).push(a@[i as int]));
        assert(b@.take(i + 1) =~= b@.take(i as int).push(b@[i as int]));
        i += 1;
    }
    if i < b.len() {
        assert(parts_at(a@, b@, i as int));
        Rank::Before
    } else if i < a.len() {
        assert(parts_at(b@, a@, i as int));
        Rank::After
    } else {
        assert(a@.take(i as int) =~= a@);
        assert(b@.take(i as int) =~= b@);
        Rank::Same
    }
}

} // verus!
