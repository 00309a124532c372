//! Walks that follow a successor function from node to node, and the bound
//! that makes them end.

use vstd::prelude::*;
use vstd::set_lib::lemma_len_subset;

verus! {

/// A successor function on hashes: `None` where the walk stops.
pub type Step = spec_fn(Seq<u8>) -> Option<Seq<u8>>;

/// The nodes visited from `start` in at most `steps` steps of `next`.
pub open spec fn follow(next: Step, start: Seq<u8>, steps: nat) -> Seq<Seq<u8>>
    decreases steps,
{
    if steps == 0 {
        seq![start]
    } else {
        let p = follow(next, start, (steps - 1) as nat);
        match next(p.last()) {
            Some(x) => p.push(x),
            None => p,
        }
    }
}

/// `path` is the whole walk from `start`: it stops on a node without a
/// successor and visits no node twice.
pub open spec fn walk_ends_with(next: Step, start: Seq<u8>, path: Seq<Seq<u8>>) -> bool {
    &&& path.len() >= 1
    &&& path == follow(next, start, (path.len() - 1) as nat)
    &&& next(path.last()) is None
    &&& path.no_duplicates()
}

/// The walk from `start` comes back to a node it has already visited.
pub open spec fn walk_repeats(next: Step, start: Seq<u8>) -> bool {
    exists|k: nat| !(#[trigger] follow(next, start, k)).no_duplicates()
}


/// Once a walk has stopped, further steps add nothing.
pub proof fn lemma_follow_stable(next: Step, start: Seq<u8>, k: nat, m: nat)
    requires
        k <= m,
        next(follow(next, start, k).last()) is None,
    ensures
        follow(next, start, m) == follow(next, start, k),
    decreases m - k,
{
    if m > k {
        lemma_follow_stable(next, start, k, (m - 1) as nat);
    }
}

/// A walk that ends never repeats a node.
pub proof fn lemma_ended_walk_never_repeats(next: Step, start: Seq<u8>, path: Seq<Seq<u8>>)
    requires
        walk_ends_with(next, start, path),
    ensures
        !walk_repeats(next, start),
{
    let n = (path.len() - 1) as nat;
    assert forall|k: nat| (#[trigger] follow(next, start, k)).no_duplicates() by {
        if k >= n {
            lemma_follow_stable(next, start, n, k);
        } else {
            lemma_follow_prefix(next, start, k, n);
            assert forall|i: int, j: int|
                0 <= i < follow(next, start, k).len() && 0 <= j < follow(next, start, k).len() && i != j
                implies follow(next, start, k)[i] != follow(next, start, k)[j] by {
                assert(follow(next, start, k)[i] == path[i]);
                assert(follow(next, start, k)[j] == path[j]);
            }
        }
    }
}

/// A shorter walk is a prefix of a longer one.
pub proof fn lemma_follow_prefix(next: Step, start: Seq<u8>, k: nat, m: nat)
    requires
        k <= m,
    ensures
        follow(next, start, k).len() <= follow(next, start, m).len(),
        forall|i: int|
            0 <= i < follow(next, start, k).len() ==> follow(next, start, k)[i] == follow(
                next,
                start,
                m,
            )[i],
    decreases m - k,
{
    if m > k {
        lemma_follow_prefix(next, start, k, (m - 1) as nat);
    }
}

/// Two walks of the same length that end are the same walk.
pub proof fn lemma_walk_unique(next: Step, start: Seq<u8>, p: Seq<Seq<u8>>, q: Seq<Seq<u8>>)
    requires
        walk_ends_with(next, start, p),
        walk_ends_with(next, start, q),
    ensures
        p == q,
{
    let a = (p.len() - 1) as nat;
    let b = (q.len() - 1) as nat;
    if a <= b {
        lemma_follow_stable(next, start, a, b);
    } else {
        lemma_follow_stable(next, start, b, a);
    }
}


/// A walk without repeats whose nodes after the first all come from `pool`
/// has at most one node more than `pool` has entries.
pub proof fn lemma_distinct_walk_bounded(path: Seq<Seq<u8>>, pool: Seq<Seq<u8>>)
    requires
        path.len() >= 1,
        path.no_duplicates(),
        forall|i: int| 1 <= i < path.len() ==> pool.contains(#[trigger] path[i]),
    ensures
        path.len() <= pool.len() + 1,
{
    let tail = path.subrange(1, path.len() as int);
    assert(tail.no_duplicates()) by {
        assert forall|i: int, j: int| 0 <= i < tail.len() && 0 <= j < tail.len() && i != j implies tail[i]
            != tail[j] by {
            assert(tail[i] == path[i + 1]);
            assert(tail[j] == path[j + 1]);
        }
    }
    tail.unique_seq_to_set();
    pool.lemma_cardinality_of_set();
    assert(tail.to_set().subset_of(pool.to_set())) by {
        assert forall|x: Seq<u8>| tail.to_set().contains(x) implies pool.to_set().contains(x) by {
            let i = choose|i: int| 0 <= i < tail.len() && tail[i] == x;
            assert(path[i + 1] == x);
        }
    }
    lemma_len_subset(tail.to_set(), pool.to_set());
}

/// One more step of a walk that has not yet repeated a node.
pub proof fn lemma_walk_extend(next: Step, start: Seq<u8>, p: Seq<Seq<u8>>, x: Seq<u8>, pool: Seq<Seq<u8>>)
    requires
        p.len() >= 1,
        p == follow(next, start, (p.len() - 1) as nat),
        p.no_duplicates(),
        next(p.last()) == Some(x),
        !p.contains(x),
        forall|k: int| 1 <= k < p.len() ==> pool.contains(#[trigger] p[k]),
        pool.contains(x),
    ensures
        p.push(x) == follow(next, start, p.len() as nat),
        p.push(x).no_duplicates(),
        forall|k: int| 1 <= k < p.len() + 1 ==> pool.contains(#[trigger] p.push(x)[k]),
        p.len() + 1 <= pool.len() + 1,
{
    let q = p.push(x);
    assert forall|a: int, b: int| 0 <= a < q.len() && 0 <= b < q.len() && a != b implies q[a] != q[b] by {
        if a < p.len() && b < p.len() {
        } else if a < p.len() {
            assert(p.contains(p[a]));
        } else if b < p.len() {
            assert(p.contains(p[b]));
        }
    }
    assert forall|k: int| 1 <= k < p.len() + 1 implies pool.contains(#[trigger] q[k]) by {
        if k < p.len() {
            assert(q[k] == p[k]);
        }
    }
    lemma_distinct_walk_bounded(q, pool);
}

/// A step that lands on a node already visited makes the walk repeat.
pub proof fn lemma_walk_cycle(next: Step, start: Seq<u8>, p: Seq<Seq<u8>>, x: Seq<u8>)
    requires
        p.len() >= 1,
        p == follow(next, start, (p.len() - 1) as nat),
        next(p.last()) == Some(x),
        p.contains(x),
    ensures
        walk_repeats(next, start),
{
    let k = p.len() as nat;
    assert(follow(next, start, k) == p.push(x));
    let j = choose|j: int| 0 <= j < p.len() && p[j] == x;
    assert(p.push(x)[j] == p.push(x)[p.len() as int]);
    assert(!follow(next, start, k).no_duplicates());
}

} // verus!
