//! The order in which competing updates are considered: earliest timestamp
//! first, then smallest hash, comparing hash bytes lexicographically.

use vstd::prelude::*;
use crate::keys::Key;
use crate::records::ActionRecord;

verus! {

/// `a` comes strictly before `b` in lexicographic byte order.
pub open spec fn bytes_lt(a: Seq<u8>, b: Seq<u8>) -> bool
    decreases a.len(),
{
    if a.len() == 0 {
        b.len() > 0
    } else if b.len() == 0 {
        false
    } else if a[0] != b[0] {
        a[0] < b[0]
    } else {
        bytes_lt(a.drop_first(), b.drop_first())
    }
}

/// Record `x` comes before record `y`: it is older, or as old with a smaller hash.
pub open spec fn precedes(x: ActionRecord, y: ActionRecord) -> bool {
    x.timestamp < y.timestamp || (x.timestamp == y.timestamp && bytes_lt(x.hash@, y.hash@))
}

pub proof fn lemma_bytes_lt_transitive(a: Seq<u8>, b: Seq<u8>, c: Seq<u8>)
    requires
        bytes_lt(a, b),
        bytes_lt(b, c),
    ensures
        bytes_lt(a, c),
    decreases a.len(),
{
    if a.len() > 0 && b.len() > 0 && c.len() > 0 && a[0] == b[0] && b[0] == c[0] {
        lemma_bytes_lt_transitive(a.drop_first(), b.drop_first(), c.drop_first());
    }
}

pub proof fn lemma_bytes_lt_irreflexive(a: Seq<u8>)
    ensures
        !bytes_lt(a, a),
    decreases a.len(),
{
    if a.len() > 0 {
        lemma_bytes_lt_irreflexive(a.drop_first());
    }
}


pub proof fn lemma_precedes_transitive(x: ActionRecord, y: ActionRecord, z: ActionRecord)
    requires
        precedes(x, y),
        precedes(y, z),
    ensures
        precedes(x, z),
{
    if x.timestamp == y.timestamp && y.timestamp == z.timestamp {
        lemma_bytes_lt_transitive(x.hash@, y.hash@, z.hash@);
    }
}

/// Whether `a` comes strictly before `b` in lexicographic byte order.
pub fn bytes_less(a: &Key, b: &Key) -> (r: bool)
    ensures
        r == bytes_lt(a@, b@),
{
    let mut i: usize = 0;
    assert(a@.subrange(0, a.len() as int) =~= a@);
    assert(b@.subrange(0, b.len() as int) =~= b@);
    loop
        invariant
            i <= a.len(),
            i <= b.len(),
            bytes_lt(a@, b@) == bytes_lt(
                a@.subrange(i as int, a.len() as int),
                b@.subrange(i as int, b.len() as int),
            ),
        decreases a.len() - i,
    {
        let ghost sa = a@.subrange(i as int, a.len() as int);
        let ghost sb = b@.subrange(i as int, b.len() as int);
        if i == a.len() {
            return i < b.len();
        }
        if i == b.len() {
            return false;
        }
        assert(sa[0] == a@[i as int] && sb[0] == b@[i as int]);
        if a[i] != b[i] {
            return a[i] < b[i];
        }
        assert(sa.drop_first() =~= a@.subrange(i + 1, a.len() as int));
        assert(sb.drop_first() =~= b@.subrange(i + 1, b.len() as int));
        i += 1;
    }
}

/// Whether record `x` comes before record `y`.
pub fn record_precedes(x: &ActionRecord, y: &ActionRecord) -> (r: bool)
    ensures
        r == precedes(*x, *y),
{
    if x.timestamp != y.timestamp {
        x.timestamp < y.timestamp
    } else {
        bytes_less(&x.hash, &y.hash)
    }
}

} // verus!
