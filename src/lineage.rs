//! Tracing a record back through the records it replaces to the create
//! record at the root of its lineage.

use vstd::prelude::*;
use crate::error::CoopError;
use crate::keys::{Key, keys_view, contains_key, copy_key};
use crate::records::{ActionKind, ActionRecord, first_index, replaced_by, find_record};
use crate::walk::{
    Step, follow, walk_ends_with, walk_repeats, lemma_walk_extend, lemma_walk_cycle,
    lemma_ended_walk_never_repeats, lemma_walk_unique,
};

verus! {

/// One step back along a lineage: the record that the record with hash `h` replaces.
pub open spec fn lineage_step(log: Seq<ActionRecord>) -> Step {
    |h: Seq<u8>|
        match first_index(log, h) {
            Some(i) => replaced_by(log, i),
            None => None,
        }
}

/// The record at the end of the backward walk is a create record.
pub open spec fn ends_at_create(log: Seq<ActionRecord>, last: Seq<u8>) -> bool {
    match first_index(log, last) {
        Some(i) => log[i].kind is Create,
        None => false,
    }
}

/// The outcome of tracing `start` back to its root, as a path of hashes from
/// `start` to the root.
pub open spec fn traced_origin(log: Seq<ActionRecord>, start: Seq<u8>, r: Result<Seq<Seq<u8>>, CoopError>) -> bool {
    match r {
        Ok(p) => walk_ends_with(lineage_step(log), start, p) && ends_at_create(log, p.last()),
        Err(CoopError::NotFound) => exists|p: Seq<Seq<u8>>|
            walk_ends_with(lineage_step(log), start, p) && first_index(log, p.last()) is None,
        Err(CoopError::LineageMismatch) => exists|p: Seq<Seq<u8>>|
            walk_ends_with(lineage_step(log), start, p) && match first_index(log, p.last()) {
                Some(i) => log[i].kind is Other,
                None => false,
            },
        Err(CoopError::CycleDetected) => walk_repeats(lineage_step(log), start),
        Err(_) => false,
    }
}

/// The hashes from `start` back to the create record at the root of its
/// lineage, `start` first.
pub fn trace_origin(start: &Key, log: &Vec<ActionRecord>) -> (r: Result<Vec<Key>, CoopError>)
    ensures
        traced_origin(
            log@,
            start@,
            match r {
                Ok(p) => Ok(keys_view(p@)),
                Err(e) => Err(e),
            },
        ),
{
    let ghost next = lineage_step(log@);
    let ghost pool = log@.map_values(
        |a: ActionRecord|
            match a.kind {
                ActionKind::Update(o) => o@,
                _ => Seq::<u8>::empty(),
            },
    );
    let mut path: Vec<Key> = Vec::new();
    path.push(copy_key(start));
    let mut cur = copy_key(start);
    assert(keys_view(path@) =~= follow(next, start@, 0));
    loop
        invariant
            path.len() >= 1,
            keys_view(path@) == follow(next, start@, (path.len() - 1) as nat),
            keys_view(path@).no_duplicates(),
            cur@ == keys_view(path@).last(),
            forall|k: int| 1 <= k < path.len() ==> pool.contains(#[trigger] keys_view(path@)[k]),
            path.len() <= log.len() + 1,
            next == lineage_step(log@),
            pool.len() == log.len(),
            forall|i: int| 0 <= i < log.len() ==> #[trigger] replaced_by(log@, i) == Some(pool[i])
                || replaced_by(log@, i) is None,
        decreases log.len() + 1 - path.len(),
    {
        let ghost p = keys_view(path@);
        match find_record(log, &cur) {
            None => {
                assert(next(p.last()) is None);
                assert(walk_ends_with(next, start@, p));
                return Err(CoopError::NotFound);
            },
            Some(i) => {
                match &log[i].kind {
                    ActionKind::Create => {
                        assert(next(p.last()) is None);
                        return Ok(path);
                    },
                    ActionKind::Other => {
                        assert(next(p.last()) is None);
                        assert(walk_ends_with(next, start@, p));
                        return Err(CoopError::LineageMismatch);
                    },
                    ActionKind::Update(o) => {
                        assert(next(p.last()) == Some(o@));
                        if contains_key(&path, o) {
                            proof {
                                lemma_walk_cycle(next, start@, p, o@);
                            }
                            return Err(CoopError::CycleDetected);
                        }
                        assert(pool[i as int] == o@);
                        proof {
                            lemma_walk_extend(next, start@, p, o@, pool);
                        }
                        path.push(copy_key(o));
                        assert(keys_view(path@) =~= p.push(o@));
                        cur = copy_key(o);
                    },
                }
            },
        }
    }
}

/// The hash of the create record at the root of `start`'s lineage.
pub fn get_root_origin(start: &Key, log: &Vec<ActionRecord>) -> (r: Result<Key, CoopError>)
    ensures
        r is Ok <==> exists|p: Seq<Seq<u8>>|
            walk_ends_with(lineage_step(log@), start@, p) && ends_at_create(log@, p.last()),
        r matches Ok(root) ==> exists|p: Seq<Seq<u8>>|
            walk_ends_with(lineage_step(log@), start@, p) && ends_at_create(log@, p.last())
                && p.last() == root@,
        r matches Err(e) ==> traced_origin(log@, start@, Err(e)),
{
    match trace_origin(start, log) {
        Ok(path) => {
            let root = copy_key(&path[path.len() - 1]);
            assert(keys_view(path@).last() == root@);
            Ok(root)
        },
        Err(e) => {
            proof {
                let next = lineage_step(log@);
                assert forall|p: Seq<Seq<u8>>| walk_ends_with(next, start@, p) implies !ends_at_create(
                    log@,
                    p.last(),
                ) by {
                    if e == CoopError::CycleDetected {
                        lemma_ended_walk_never_repeats(next, start@, p);
                    } else if e == CoopError::NotFound {
                        let q = choose|q: Seq<Seq<u8>>|
                            walk_ends_with(next, start@, q) && first_index(log@, q.last()) is None;
                        lemma_walk_unique(next, start@, p, q);
                    } else {
                        let q = choose|q: Seq<Seq<u8>>|
                            walk_ends_with(next, start@, q) && match first_index(log@, q.last()) {
                                Some(i) => log@[i].kind is Other,
                                None => false,
                            };
                        lemma_walk_unique(next, start@, p, q);
                    }
                }
            }
            Err(e)
        },
    }
}

} // verus!
