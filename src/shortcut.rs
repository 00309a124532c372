//! Shortcut resolution: a table of `previous -> next` pointers read from the
//! update links of a group's anchors, chased from a content id.

use vstd::prelude::*;
use crate::error::CoopError;
use crate::keys::{Key, keys_view, contains_key, copy_key, same_key};
use crate::tag::{parsed_update_tag, parse_update_tag};
use crate::walk::{
    Step, follow, walk_ends_with, walk_repeats, lemma_walk_extend, lemma_walk_cycle,
    lemma_ended_walk_never_repeats,
};

verus! {

/// A link as read from an anchor: where it points and its tag.
#[derive(Clone, Debug)]
pub struct Link {
    pub target: Key,
    pub tag: Vec<u8>,
}

/// Evolution pointers: each pair is (revision, the revision that follows it).
/// Where a revision occurs more than once, the last pair counts.
pub type LinkPointerMap = Vec<(Key, Key)>;

/// The pointers as pairs of byte strings.
pub open spec fn pairs_view(map: Seq<(Key, Key)>) -> Seq<(Seq<u8>, Seq<u8>)> {
    map.map_values(|p: (Key, Key)| (p.0@, p.1@))
}

/// Where the pointers send `h`: the last pair that starts at `h`.
pub open spec fn pointer_of(pairs: Seq<(Seq<u8>, Seq<u8>)>, h: Seq<u8>) -> Option<Seq<u8>>
    decreases pairs.len(),
{
    if pairs.len() == 0 {
        None
    } else if pairs.last().0 == h {
        Some(pairs.last().1)
    } else {
        pointer_of(pairs.drop_last(), h)
    }
}

/// One step of a shortcut chase.
pub open spec fn shortcut_step(pairs: Seq<(Seq<u8>, Seq<u8>)>) -> Step {
    |h: Seq<u8>| pointer_of(pairs, h)
}

/// A pointer found for `h` is the second half of a pair that starts at `h`.
pub proof fn lemma_pointer_in_pairs(pairs: Seq<(Seq<u8>, Seq<u8>)>, h: Seq<u8>)
    ensures
        pointer_of(pairs, h) matches Some(x) ==> exists|i: int|
            0 <= i < pairs.len() && #[trigger] pairs[i] == (h, x),
    decreases pairs.len(),
{
    if pairs.len() > 0 && pairs.last().0 != h {
        lemma_pointer_in_pairs(pairs.drop_last(), h);
        if let Some(x) = pointer_of(pairs, h) {
            let i = choose|i: int| 0 <= i < pairs.drop_last().len() && #[trigger] pairs.drop_last()[i] == (h, x);
            assert(pairs[i] == (h, x));
        }
    } else if pairs.len() > 0 {
        assert(pairs[pairs.len() - 1] == (h, pairs.last().1));
    }
}

/// A revision that some pair starts at has a pointer.
pub proof fn lemma_pointer_found(pairs: Seq<(Seq<u8>, Seq<u8>)>, h: Seq<u8>, k: int)
    requires
        0 <= k < pairs.len(),
        pairs[k].0 == h,
    ensures
        pointer_of(pairs, h) is Some,
    decreases pairs.len(),
{
    if pairs.last().0 != h {
        assert(pairs.drop_last()[k] == pairs[k]);
        lemma_pointer_found(pairs.drop_last(), h, k);
    }
}

/// Where the pointers send `h`, as a position in `map`.
pub fn pointer_lookup(map: &LinkPointerMap, h: &Key) -> (r: Option<usize>)
    ensures
        match r {
            Some(i) => i < map.len() && map@[i as int].0@ == h@ && pointer_of(pairs_view(map@), h@) == Some(
                map@[i as int].1@,
            ),
            None => pointer_of(pairs_view(map@), h@) is None,
        },
{
    let ghost all = pairs_view(map@);
    let mut i: usize = map.len();
    assert(all.subrange(0, i as int) =~= all);
    while i > 0
        invariant
            i <= map.len(),
            all == pairs_view(map@),
            pointer_of(all, h@) == pointer_of(all.subrange(0, i as int), h@),
        decreases i,
    {
        let j = i - 1;
        assert(all.subrange(0, i as int).drop_last() =~= all.subrange(0, j as int));
        assert(all.subrange(0, i as int).last() == (map@[j as int].0@, map@[j as int].1@));
        if same_key(&map[j].0, h) {
            return Some(j);
        }
        i = j;
    }
    None
}

/// The revisions of `start`, chasing pointers until none leads on; fails if
/// the chase comes back to a revision it has already passed.
pub fn follow_update_map(start: &Key, map: &LinkPointerMap) -> (r: Result<Vec<Key>, CoopError>)
    ensures
        r is Ok <==> !walk_repeats(shortcut_step(pairs_view(map@)), start@),
        match r {
            Ok(p) => walk_ends_with(shortcut_step(pairs_view(map@)), start@, keys_view(p@)),
            Err(e) => e == CoopError::CycleDetected && walk_repeats(shortcut_step(pairs_view(map@)), start@),
        },
{
    let ghost next = shortcut_step(pairs_view(map@));
    let ghost pool = map@.map_values(|p: (Key, Key)| p.1@);
    let mut path: Vec<Key> = Vec::new();
    path.push(copy_key(start));
    let mut cur = copy_key(start);
    assert(keys_view(path@) =~= follow(next, start@, 0));
    loop
        invariant
            path.len() >= 1,
            keys_view(path@) == follow(next, start@, (path.len() - 1) as nat),
            keys_view(path@).no_duplicates(),
            cur@ == keys_view(path@).last(),
            forall|k: int| 1 <= k < path.len() ==> pool.contains(#[trigger] keys_view(path@)[k]),
            path.len() <= map.len() + 1,
            next == shortcut_step(pairs_view(map@)),
            pool == map@.map_values(|p: (Key, Key)| p.1@),
        decreases map.len() + 1 - path.len(),
    {
        let ghost p = keys_view(path@);
        match pointer_lookup(map, &cur) {
            None => {
                assert(walk_ends_with(next, start@, p));
                proof {
                    lemma_ended_walk_never_repeats(next, start@, p);
                }
                return Ok(path);
            },
            Some(i) => {
                let x = &map[i].1;
                assert(next(p.last()) == Some(x@));
                if contains_key(&path, x) {
                    proof {
                        lemma_walk_cycle(next, start@, p, x@);
                    }
                    return Err(CoopError::CycleDetected);
                }
                assert(pool[i as int] == x@);
                proof {
                    lemma_walk_extend(next, start@, p, x@, pool);
                }
                path.push(copy_key(x));
                assert(keys_view(path@) =~= p.push(x@));
                cur = copy_key(x);
            },
        }
    }
}

/// The pointers that a list of update links declares, in order: for each link
/// whose tag reads as `content_id:previous`, the triple
/// `(content_id, previous, target)`; other links are passed over.
pub open spec fn shortcuts_of(links: Seq<Link>) -> Seq<(Seq<u8>, Seq<u8>, Seq<u8>)>
    decreases links.len(),
{
    if links.len() == 0 {
        Seq::empty()
    } else {
        let rest = shortcuts_of(links.drop_last());
        match parsed_update_tag(links.last().tag@) {
            Some((a, b)) => rest.push((a, b, links.last().target@)),
            None => rest,
        }
    }
}

/// The triples as byte strings.
pub open spec fn triples_view(t: Seq<(Key, Key, Key)>) -> Seq<(Seq<u8>, Seq<u8>, Seq<u8>)> {
    t.map_values(|x: (Key, Key, Key)| (x.0@, x.1@, x.2@))
}

/// Every link of `links` carries an update tag that reads as `content_id:previous`.
pub open spec fn update_tags_parse(links: Seq<Link>) -> bool {
    forall|i: int| 0 <= i < links.len() ==> (#[trigger] parsed_update_tag(links[i].tag@)) is Some
}

/// The pointers declared by `links`, as `(content_id, previous, next)`; a
/// link whose tag does not read as `content_id:previous` is refused.
pub fn shortcuts(links: &Vec<Link>) -> (r: Result<Vec<(Key, Key, Key)>, CoopError>)
    ensures
        r is Ok <==> update_tags_parse(links@),
        r matches Ok(v) ==> triples_view(v@) == shortcuts_of(links@),
        r matches Err(e) ==> e == CoopError::MalformedTag,
{
    let mut r: Vec<(Key, Key, Key)> = Vec::new();
    let mut i: usize = 0;
    while i < links.len()
        invariant
            i <= links.len(),
            triples_view(r@) == shortcuts_of(links@.subrange(0, i as int)),
            forall|j: int| 0 <= j < i ==> (#[trigger] parsed_update_tag(links@[j].tag@)) is Some,
        decreases links.len() - i,
    {
        assert(links@.subrange(0, i as int + 1).drop_last() =~= links@.subrange(0, i as int));
        assert(links@.subrange(0, i as int + 1).last() == links@[i as int]);
        match parse_update_tag(&links[i].tag) {
            Ok((a, b)) => {
                let ghost before = triples_view(r@);
                r.push((a, b, copy_key(&links[i].target)));
                assert(triples_view(r@) =~= before.push((a@, b@, links@[i as int].target@)));
            },
            Err(e) => {
                return Err(e);
            },
        }
        i += 1;
    }
    assert(links@.subrange(0, links.len() as int) =~= links@);
    Ok(r)
}

/// The pointers of a list of triples, `previous -> next`.
pub open spec fn pointer_pairs(t: Seq<(Seq<u8>, Seq<u8>, Seq<u8>)>) -> Seq<(Seq<u8>, Seq<u8>)> {
    t.map_values(|x: (Seq<u8>, Seq<u8>, Seq<u8>)| (x.1, x.2))
}

/// Adds the pointers of `triples` to `map`, after those it holds.
pub fn insert_shortcuts(map: &mut LinkPointerMap, triples: &Vec<(Key, Key, Key)>)
    ensures
        pairs_view(final(map)@) == pairs_view(old(map)@) + pointer_pairs(triples_view(triples@)),
{
    let ghost start = pairs_view(map@);
    let mut i: usize = 0;
    while i < triples.len()
        invariant
            i <= triples.len(),
            start == pairs_view(old(map)@),
            pairs_view(map@) == start + pointer_pairs(triples_view(triples@)).subrange(0, i as int),
        decreases triples.len() - i,
    {
        let ghost before = pairs_view(map@);
        map.push((copy_key(&triples[i].1), copy_key(&triples[i].2)));
        assert(pairs_view(map@) =~= before.push((triples@[i as int].1@, triples@[i as int].2@)));
        i += 1;
        assert(pairs_view(map@) =~= start + pointer_pairs(triples_view(triples@)).subrange(0, i as int));
    }
    assert(pointer_pairs(triples_view(triples@)).subrange(0, triples.len() as int) =~= pointer_pairs(
        triples_view(triples@),
    ));
}

} // verus!
