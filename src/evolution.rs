//! Full-trace resolution: walking a content item's updates forward from its
//! create record, at each record taking the earliest admitted update.

use vstd::prelude::*;
use crate::error::CoopError;
use crate::keys::{Key, keys_view, contains_key, copy_key, same_key};
use crate::records::{ActionKind, ActionRecord, first_index, replaced_by, find_record};
use crate::order::{precedes, record_precedes, lemma_precedes_transitive};
use crate::walk::{
    Step, follow, walk_ends_with, walk_repeats, lemma_walk_extend, lemma_walk_cycle,
    lemma_ended_walk_never_repeats,
};

verus! {

/// Whether an update counts: any author counts, or its author is one of
/// `authors`, or its own hash is one of `exceptions`; and, where a group is
/// given, the update declares that group as its own.
pub open spec fn admitted(
    r: ActionRecord,
    any_author: bool,
    authors: Seq<Seq<u8>>,
    exceptions: Seq<Seq<u8>>,
    group: Option<Seq<u8>>,
) -> bool {
    (any_author || authors.contains(r.author@) || exceptions.contains(r.hash@)) && in_group(r, group)
}

/// Where a group is given, the record declares that group.
pub open spec fn in_group(r: ActionRecord, group: Option<Seq<u8>>) -> bool {
    match group {
        None => true,
        Some(g) => match r.group_id {
            Some(d) => d@ == g,
            None => false,
        },
    }
}

/// A group id held in an `Option`, as a byte sequence.
pub open spec fn scope_view(group: Option<Key>) -> Option<Seq<u8>> {
    match group {
        Some(g) => Some(g@),
        None => None,
    }
}

/// Record `i` is an admitted update of the record with hash `h`.
pub open spec fn is_candidate(
    log: Seq<ActionRecord>,
    any_author: bool,
    authors: Seq<Seq<u8>>,
    exceptions: Seq<Seq<u8>>,
    group: Option<Seq<u8>>,
    h: Seq<u8>,
    i: int,
) -> bool {
    0 <= i < log.len() && replaced_by(log, i) == Some(h) && admitted(log[i], any_author, authors, exceptions, group)
}

/// Among the first `n` records, the admitted update of `h` that comes first
/// (the first one in the log where two are equal in order).
pub open spec fn earliest_candidate(
    log: Seq<ActionRecord>,
    any_author: bool,
    authors: Seq<Seq<u8>>,
    exceptions: Seq<Seq<u8>>,
    group: Option<Seq<u8>>,
    h: Seq<u8>,
    n: nat,
) -> Option<int>
    decreases n,
{
    if n == 0 {
        None
    } else {
        let best = earliest_candidate(log, any_author, authors, exceptions, group, h, (n - 1) as nat);
        let i = n - 1;
        if is_candidate(log, any_author, authors, exceptions, group, h, i) {
            match best {
                Some(b) => if precedes(log[i], log[b]) {
                    Some(i)
                } else {
                    Some(b)
                },
                None => Some(i),
            }
        } else {
            best
        }
    }
}

/// One step forward in the evolution of a record: the hash of its earliest
/// admitted update.
pub open spec fn evolution_step(
    log: Seq<ActionRecord>,
    any_author: bool,
    authors: Seq<Seq<u8>>,
    exceptions: Seq<Seq<u8>>,
    group: Option<Seq<u8>>,
) -> Step {
    |h: Seq<u8>|
        match earliest_candidate(log, any_author, authors, exceptions, group, h, log.len()) {
            Some(i) => Some(log[i].hash@),
            None => None,
        }
}

/// The earliest candidate is a candidate, and no candidate comes before it.
pub proof fn lemma_earliest_candidate(
    log: Seq<ActionRecord>,
    any_author: bool,
    authors: Seq<Seq<u8>>,
    exceptions: Seq<Seq<u8>>,
    group: Option<Seq<u8>>,
    h: Seq<u8>,
    n: nat,
)
    requires
        n <= log.len(),
    ensures
        match earliest_candidate(log, any_author, authors, exceptions, group, h, n) {
            Some(b) => b < n && is_candidate(log, any_author, authors, exceptions, group, h, b) && forall|j: int|
                0 <= j < n && #[trigger] is_candidate(log, any_author, authors, exceptions, group, h, j)
                    ==> !precedes(log[j], log[b]),
            None => forall|j: int|
                0 <= j < n ==> !#[trigger] is_candidate(log, any_author, authors, exceptions, group, h, j),
        },
    decreases n,
{
    if n > 0 {
        let m = (n - 1) as nat;
        lemma_earliest_candidate(log, any_author, authors, exceptions, group, h, m);
        let best = earliest_candidate(log, any_author, authors, exceptions, group, h, m);
        let i = m as int;
        if is_candidate(log, any_author, authors, exceptions, group, h, i) {
            if let Some(b) = best {
                if precedes(log[i], log[b]) {
                    assert forall|j: int|
                        0 <= j < n && #[trigger] is_candidate(log, any_author, authors, exceptions, group, h, j)
                        implies !precedes(log[j], log[i]) by {
                        if j < m && precedes(log[j], log[i]) {
                            lemma_precedes_transitive(log[j], log[i], log[b]);
                        }
                        if j == i && precedes(log[j], log[i]) {
                            crate::order::lemma_bytes_lt_irreflexive(log[i].hash@);
                        }
                    }
                }
            } else {
                assert forall|j: int|
                    0 <= j < n && #[trigger] is_candidate(log, any_author, authors, exceptions, group, h, j)
                    implies !precedes(log[j], log[i]) by {
                    if j == i && precedes(log[j], log[i]) {
                        crate::order::lemma_bytes_lt_irreflexive(log[i].hash@);
                    }
                }
            }
        }
    }
}

/// The position of the earliest admitted update of the record with hash `h`.
pub fn select_next_update(
    log: &Vec<ActionRecord>,
    h: &Key,
    any_author: bool,
    authors: &Vec<Key>,
    exceptions: &Vec<Key>,
    group: &Option<Key>,
) -> (r: Option<usize>)
    ensures
        match r {
            Some(b) => earliest_candidate(
                log@,
                any_author,
                keys_view(authors@),
                keys_view(exceptions@),
                scope_view(*group),
                h@,
                log.len() as nat,
            ) == Some(b as int),
            None => earliest_candidate(
                log@,
                any_author,
                keys_view(authors@),
                keys_view(exceptions@),
                scope_view(*group),
                h@,
                log.len() as nat,
            ) is None,
        },
        match r {
            Some(b) => is_candidate(log@, any_author, keys_view(authors@), keys_view(exceptions@), scope_view(*group), h@, b as int)
                && forall|j: int|
                #[trigger] is_candidate(log@, any_author, keys_view(authors@), keys_view(exceptions@), scope_view(*group), h@, j)
                    ==> !precedes(log@[j], log@[b as int]),
            None => forall|j: int|
                !#[trigger] is_candidate(log@, any_author, keys_view(authors@), keys_view(exceptions@), scope_view(*group), h@, j),
        },
{
    let ghost au = keys_view(authors@);
    let ghost ex = keys_view(exceptions@);
    let mut best: Option<usize> = None;
    let mut i: usize = 0;
    while i < log.len()
        invariant
            i <= log.len(),
            au == keys_view(authors@),
            ex == keys_view(exceptions@),
            match best {
                Some(b) => b < i && earliest_candidate(log@, any_author, au, ex, scope_view(*group), h@, i as nat) == Some(
                    b as int,
                ),
                None => earliest_candidate(log@, any_author, au, ex, scope_view(*group), h@, i as nat) is None,
            },
        decreases log.len() - i,
    {
        let candidate = match &log[i].kind {
            ActionKind::Update(o) => {
                let same = same_key(o, h);
                let by_author = contains_key(authors, &log[i].author);
                let excepted = contains_key(exceptions, &log[i].hash);
                let declared = match group {
                    None => true,
                    Some(g) => match &log[i].group_id {
                        Some(d) => same_key(d, g),
                        None => false,
                    },
                };
                assert(replaced_by(log@, i as int) == Some(o@));
                same && (any_author || by_author || excepted) && declared
            },
            _ => {
                assert(replaced_by(log@, i as int) is None);
                false
            },
        };
        assert(candidate == is_candidate(log@, any_author, au, ex, scope_view(*group), h@, i as int));
        if candidate {
            match best {
                Some(b) => {
                    if record_precedes(&log[i], &log[b]) {
                        best = Some(i);
                    }
                },
                None => {
                    best = Some(i);
                },
            }
        }
        i += 1;
    }
    proof {
        lemma_earliest_candidate(log@, any_author, au, ex, scope_view(*group), h@, log.len() as nat);
    }
    best
}

/// The outcome of following the evolution of `start`, as a path of hashes
/// from `start` to the latest admitted revision.
pub open spec fn traced_evolution(
    log: Seq<ActionRecord>,
    any_author: bool,
    authors: Seq<Seq<u8>>,
    exceptions: Seq<Seq<u8>>,
    group: Option<Seq<u8>>,
    start: Seq<u8>,
    r: Result<Seq<Seq<u8>>, CoopError>,
) -> bool {
    match r {
        Ok(p) => first_index(log, start) is Some && walk_ends_with(
            evolution_step(log, any_author, authors, exceptions, group),
            start,
            p,
        ),
        Err(CoopError::NotFound) => first_index(log, start) is None,
        Err(CoopError::CycleDetected) => first_index(log, start) is Some && walk_repeats(
            evolution_step(log, any_author, authors, exceptions, group),
            start,
        ),
        Err(_) => false,
    }
}

/// A result with its hashes as byte strings.
pub open spec fn path_view(r: Result<Vec<Key>, CoopError>) -> Result<Seq<Seq<u8>>, CoopError> {
    match r {
        Ok(p) => Ok(keys_view(p@)),
        Err(e) => Err(e),
    }
}

fn trace_admitted(
    start: &Key,
    log: &Vec<ActionRecord>,
    any_author: bool,
    authors: &Vec<Key>,
    exceptions: &Vec<Key>,
    group: &Option<Key>,
) -> (r: Result<Vec<Key>, CoopError>)
    ensures
        traced_evolution(log@, any_author, keys_view(authors@), keys_view(exceptions@), scope_view(*group), start@, path_view(r)),
        r is Ok <==> first_index(log@, start@) is Some && !walk_repeats(
            evolution_step(log@, any_author, keys_view(authors@), keys_view(exceptions@), scope_view(*group)),
            start@,
        ),
{
    let ghost next = evolution_step(log@, any_author, keys_view(authors@), keys_view(exceptions@), scope_view(*group));
    let ghost pool = log@.map_values(|a: ActionRecord| a.hash@);
    if find_record(log, start).is_none() {
        return Err(CoopError::NotFound);
    }
    let mut path: Vec<Key> = Vec::new();
    path.push(copy_key(start));
    let mut cur = copy_key(start);
    assert(keys_view(path@) =~= follow(next, start@, 0));
    loop
        invariant
            first_index(log@, start@) is Some,
            path.len() >= 1,
            keys_view(path@) == follow(next, start@, (path.len() - 1) as nat),
            keys_view(path@).no_duplicates(),
            cur@ == keys_view(path@).last(),
            forall|k: int| 1 <= k < path.len() ==> pool.contains(#[trigger] keys_view(path@)[k]),
            path.len() <= log.len() + 1,
            next == evolution_step(log@, any_author, keys_view(authors@), keys_view(exceptions@), scope_view(*group)),
            pool == log@.map_values(|a: ActionRecord| a.hash@),
        decreases log.len() + 1 - path.len(),
    {
        let ghost p = keys_view(path@);
        match select_next_update(log, &cur, any_author, authors, exceptions, group) {
            None => {
                assert(walk_ends_with(next, start@, p));
                proof {
                    lemma_ended_walk_never_repeats(next, start@, p);
                }
                return Ok(path);
            },
            Some(b) => {
                let x = &log[b].hash;
                assert(next(p.last()) == Some(x@));
                if contains_key(&path, x) {
                    proof {
                        lemma_walk_cycle(next, start@, p, x@);
                    }
                    return Err(CoopError::CycleDetected);
                }
                assert(pool[b as int] == x@);
                proof {
                    lemma_walk_extend(next, start@, p, x@, pool);
                }
                path.push(copy_key(x));
                assert(keys_view(path@) =~= p.push(x@));
                cur = copy_key(x);
            },
        }
    }
}

/// The revisions of `start`, following at each record its earliest update.
pub fn trace_evolutions(start: &Key, log: &Vec<ActionRecord>) -> (r: Result<Vec<Key>, CoopError>)
    ensures
        traced_evolution(log@, true, Seq::empty(), Seq::empty(), None, start@, path_view(r)),
        r is Ok <==> first_index(log@, start@) is Some && !walk_repeats(
            evolution_step(log@, true, Seq::empty(), Seq::empty(), None),
            start@,
        ),
{
    let none: Vec<Key> = Vec::new();
    assert(keys_view(none@) =~= Seq::empty());
    trace_admitted(start, log, true, &none, &none, &None)
}

/// The latest revision of `start`, following at each record its earliest update.
pub fn latest_evolution(start: &Key, log: &Vec<ActionRecord>) -> (r: Result<Key, CoopError>)
    ensures
        match r {
            Ok(h) => exists|p: Seq<Seq<u8>>|
                traced_evolution(log@, true, Seq::empty(), Seq::empty(), None, start@, Ok(p)) && p.last() == h@,
            Err(e) => traced_evolution(log@, true, Seq::empty(), Seq::empty(), None, start@, Err(e)),
        },
        r is Ok <==> first_index(log@, start@) is Some && !walk_repeats(
            evolution_step(log@, true, Seq::empty(), Seq::empty(), None),
            start@,
        ),
{
    match trace_evolutions(start, log) {
        Ok(p) => {
            let h = copy_key(&p[p.len() - 1]);
            assert(keys_view(p@).last() == h@);
            Ok(h)
        },
        Err(e) => Err(e),
    }
}

/// The revisions of `start`, following at each record its earliest update
/// written by one of `authors`.
pub fn trace_evolutions_using_authorities(
    start: &Key,
    log: &Vec<ActionRecord>,
    authors: &Vec<Key>,
) -> (r: Result<Vec<Key>, CoopError>)
    ensures
        traced_evolution(log@, false, keys_view(authors@), Seq::empty(), None, start@, path_view(r)),
{
    let none: Vec<Key> = Vec::new();
    assert(keys_view(none@) =~= Seq::empty());
    trace_admitted(start, log, false, authors, &none, &None)
}

/// The revisions of `start`, following at each record its earliest update
/// written by one of `authors` or listed in `exceptions`.
pub fn trace_evolutions_using_authorities_with_exceptions(
    start: &Key,
    log: &Vec<ActionRecord>,
    authors: &Vec<Key>,
    exceptions: &Vec<Key>,
) -> (r: Result<Vec<Key>, CoopError>)
    ensures
        traced_evolution(log@, false, keys_view(authors@), keys_view(exceptions@), None, start@, path_view(r)),
        r is Ok <==> first_index(log@, start@) is Some && !walk_repeats(
            evolution_step(log@, false, keys_view(authors@), keys_view(exceptions@), None),
            start@,
        ),
{
    trace_admitted(start, log, false, authors, exceptions, &None)
}

/// The revisions of `start` as a group sees them: at each record, its earliest
/// update that declares the group `group_id` and is written by one of
/// `authors` or listed in `exceptions`.
pub fn trace_group_evolutions(
    start: &Key,
    log: &Vec<ActionRecord>,
    group_id: &Key,
    authors: &Vec<Key>,
    exceptions: &Vec<Key>,
) -> (r: Result<Vec<Key>, CoopError>)
    ensures
        traced_evolution(log@, false, keys_view(authors@), keys_view(exceptions@), Some(group_id@), start@, path_view(r)),
        r is Ok <==> first_index(log@, start@) is Some && !walk_repeats(
            evolution_step(log@, false, keys_view(authors@), keys_view(exceptions@), Some(group_id@)),
            start@,
        ),
{
    let scope = Some(copy_key(group_id));
    trace_admitted(start, log, false, authors, exceptions, &scope)
}

} // verus!
