//! The records of the action log that the resolvers read, and lookups on them.

use vstd::prelude::*;
use crate::keys::{Key, same_key};

verus! {

/// What a record of the action log does.
#[derive(Clone, Debug)]
pub enum ActionKind {
    /// It creates something new: the root of a lineage.
    Create,
    /// It replaces the record with this hash.
    Update(Key),
    /// Anything else (a delete, a link, ...).
    Other,
}

/// One immutable record of the action log.
#[derive(Clone, Debug)]
pub struct ActionRecord {
    /// The record's own hash.
    pub hash: Key,
    /// The agent that wrote it.
    pub author: Key,
    /// When it was written, in microseconds.
    pub timestamp: i64,
    pub kind: ActionKind,
    /// The group id that the record's payload declares, for content that
    /// belongs to a group.
    pub group_id: Option<Key>,
}

/// The position of the first record of `log` whose hash is `h`.
pub open spec fn first_index(log: Seq<ActionRecord>, h: Seq<u8>) -> Option<int> {
    if exists|i: int| 0 <= i < log.len() && log[i].hash@ == h {
        Some(
            choose|i: int|
                0 <= i < log.len() && log[i].hash@ == h && forall|j: int|
                    0 <= j < i ==> log[j].hash@ != h,
        )
    } else {
        None
    }
}

/// The hash that record `i` replaces, if it is an update.
pub open spec fn replaced_by(log: Seq<ActionRecord>, i: int) -> Option<Seq<u8>> {
    match log[i].kind {
        ActionKind::Update(o) => Some(o@),
        _ => None,
    }
}

/// Looks up the first record of `log` with hash `h`.
pub fn find_record(log: &Vec<ActionRecord>, h: &Key) -> (r: Option<usize>)
    ensures
        match r {
            Some(i) => i < log.len() && first_index(log@, h@) == Some(i as int),
            None => first_index(log@, h@) is None,
        },
{
    let mut i: usize = 0;
    while i < log.len()
        invariant
            i <= log.len(),
            forall|j: int| 0 <= j < i ==> log@[j].hash@ != h@,
        decreases log.len() - i,
    {
        if same_key(&log[i].hash, h) {
            proof {
                let c = choose|c: int|
                    0 <= c < log@.len() && log@[c].hash@ == h@ && forall|j: int|
                        0 <= j < c ==> log@[j].hash@ != h@;
                assert(log@[i as int].hash@ == h@);
                if c < i {
                } else if c > i {
                }
                assert(c == i);
            }
            return Some(i);
        }
        i += 1;
    }
    None
}

} // verus!
