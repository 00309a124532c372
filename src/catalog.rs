//! A group's content, found through the links of its anchors, and the latest
//! revision of each item by either resolution.

use vstd::prelude::*;
use crate::error::CoopError;
use crate::keys::{Key, keys_view, copy_key, contains_key, append_keys};
use crate::hash::{LinkableKind, linkable_kind, linkable_hash_kind, is_action_hash};
use crate::membership::{GroupEntry, contributor_seq};
use crate::records::ActionRecord;
use crate::tag::{joined, creation_tag_filter};
use crate::evolution::{
    traced_evolution, evolution_step, is_candidate, earliest_candidate, path_view,
    lemma_earliest_candidate, trace_group_evolutions,
};
use crate::shortcut::{
    Link, LinkPointerMap, pairs_view, pointer_pairs, pointer_of, shortcut_step, shortcuts_of,
    shortcuts, insert_shortcuts, follow_update_map, lemma_pointer_in_pairs, lemma_pointer_found,
    update_tags_parse,
};
use crate::walk::{walk_ends_with, walk_repeats};

verus! {

/// The links read from one anchor: creation links and update links.
#[derive(Clone, Debug)]
pub struct AnchorLinks {
    pub creates: Vec<Link>,
    pub updates: Vec<Link>,
}

/// `tag` begins with `prefix`.
pub open spec fn has_prefix(tag: Seq<u8>, prefix: Seq<u8>) -> bool {
    prefix.len() <= tag.len() && tag.subrange(0, prefix.len() as int) == prefix
}

/// The targets of the links whose tag begins with `prefix`, in order.
pub open spec fn creation_targets(links: Seq<Link>, prefix: Seq<u8>) -> Seq<Seq<u8>>
    decreases links.len(),
{
    if links.len() == 0 {
        Seq::empty()
    } else {
        let rest = creation_targets(links.drop_last(), prefix);
        if has_prefix(links.last().tag@, prefix) {
            rest.push(links.last().target@)
        } else {
            rest
        }
    }
}

/// The content ids that a list of anchors holds, anchor by anchor.
pub open spec fn anchors_content_ids(anchors: Seq<AnchorLinks>, prefix: Seq<u8>) -> Seq<Seq<u8>>
    decreases anchors.len(),
{
    if anchors.len() == 0 {
        Seq::empty()
    } else {
        anchors_content_ids(anchors.drop_last(), prefix) + creation_targets(anchors.last().creates@, prefix)
    }
}

/// The evolution pointers that a list of anchors declares, anchor by anchor.
pub open spec fn anchors_pointer_pairs(anchors: Seq<AnchorLinks>) -> Seq<(Seq<u8>, Seq<u8>)>
    decreases anchors.len(),
{
    if anchors.len() == 0 {
        Seq::empty()
    } else {
        anchors_pointer_pairs(anchors.drop_last()) + pointer_pairs(shortcuts_of(anchors.last().updates@))
    }
}

/// The targets of the update links of a list of anchors that are action hashes.
pub open spec fn anchors_update_actions(anchors: Seq<AnchorLinks>) -> Seq<Seq<u8>>
    decreases anchors.len(),
{
    if anchors.len() == 0 {
        Seq::empty()
    } else {
        anchors_update_actions(anchors.drop_last()) + action_hashes(
            anchors.last().updates@.map_values(|l: Link| l.target@),
        )
    }
}

/// The entries of `s` that are hashes of the given kind, in order.
pub open spec fn hashes_of_kind(s: Seq<Seq<u8>>, kind: LinkableKind) -> Seq<Seq<u8>>
    decreases s.len(),
{
    if s.len() == 0 {
        Seq::empty()
    } else if linkable_kind(s.last()) == Some(kind) {
        hashes_of_kind(s.drop_last(), kind).push(s.last())
    } else {
        hashes_of_kind(s.drop_last(), kind)
    }
}

/// The entries of `s` that are action hashes, in order.
pub open spec fn action_hashes(s: Seq<Seq<u8>>) -> Seq<Seq<u8>> {
    hashes_of_kind(s, LinkableKind::Action)
}

fn starts_with(tag: &Vec<u8>, prefix: &Vec<u8>) -> (r: bool)
    ensures
        r == has_prefix(tag@, prefix@),
{
    if prefix.len() > tag.len() {
        return false;
    }
    let mut i: usize = 0;
    while i < prefix.len()
        invariant
            i <= prefix.len() <= tag.len(),
            forall|j: int| 0 <= j < i ==> tag@[j] == prefix@[j],
        decreases prefix.len() - i,
    {
        if tag[i] != prefix[i] {
            assert(tag@.subrange(0, prefix.len() as int)[i as int] != prefix@[i as int]);
            return false;
        }
        i += 1;
    }
    assert(tag@.subrange(0, prefix.len() as int) =~= prefix@);
    true
}

/// The targets of the creation links whose tag begins with `prefix`.
pub fn create_targets(links: &Vec<Link>, prefix: &Vec<u8>) -> (r: Vec<Key>)
    ensures
        keys_view(r@) == creation_targets(links@, prefix@),
{
    let mut r: Vec<Key> = Vec::new();
    let mut i: usize = 0;
    while i < links.len()
        invariant
            i <= links.len(),
            keys_view(r@) == creation_targets(links@.subrange(0, i as int), prefix@),
        decreases links.len() - i,
    {
        assert(links@.subrange(0, i as int + 1).drop_last() =~= links@.subrange(0, i as int));
        assert(links@.subrange(0, i as int + 1).last() == links@[i as int]);
        if starts_with(&links[i].tag, prefix) {
            let ghost before = keys_view(r@);
            r.push(copy_key(&links[i].target));
            assert(keys_view(r@) =~= before.push(links@[i as int].target@));
        }
        i += 1;
    }
    assert(links@.subrange(0, links.len() as int) =~= links@);
    r
}

/// The targets of the update links that are action hashes.
pub fn update_actions(links: &Vec<Link>) -> (r: Vec<Key>)
    ensures
        keys_view(r@) == action_hashes(links@.map_values(|l: Link| l.target@)),
{
    let ghost all = links@.map_values(|l: Link| l.target@);
    let mut r: Vec<Key> = Vec::new();
    let mut i: usize = 0;
    while i < links.len()
        invariant
            i <= links.len(),
            all == links@.map_values(|l: Link| l.target@),
            keys_view(r@) == action_hashes(all.subrange(0, i as int)),
        decreases links.len() - i,
    {
        assert(all.subrange(0, i as int + 1).drop_last() =~= all.subrange(0, i as int));
        assert(all.subrange(0, i as int + 1).last() == links@[i as int].target@);
        if is_action_hash(&links[i].target) {
            let ghost before = keys_view(r@);
            r.push(copy_key(&links[i].target));
            assert(keys_view(r@) =~= before.push(links@[i as int].target@));
        }
        i += 1;
    }
    assert(all.subrange(0, links.len() as int) =~= all);
    r
}

/// The content ids held by `anchors` under creation tags that begin with `prefix`.
pub fn content_ids(anchors: &Vec<AnchorLinks>, prefix: &Vec<u8>) -> (r: Vec<Key>)
    ensures
        keys_view(r@) == anchors_content_ids(anchors@, prefix@),
{
    let mut r: Vec<Key> = Vec::new();
    let mut i: usize = 0;
    while i < anchors.len()
        invariant
            i <= anchors.len(),
            keys_view(r@) == anchors_content_ids(anchors@.subrange(0, i as int), prefix@),
        decreases anchors.len() - i,
    {
        assert(anchors@.subrange(0, i as int + 1).drop_last() =~= anchors@.subrange(0, i as int));
        assert(anchors@.subrange(0, i as int + 1).last() == anchors@[i as int]);
        let found = create_targets(&anchors[i].creates, prefix);
        append_keys(&mut r, &found);
        i += 1;
    }
    assert(anchors@.subrange(0, anchors.len() as int) =~= anchors@);
    r
}

/// The action hashes that the update links of `anchors` point to.
pub fn archived_update_actions(anchors: &Vec<AnchorLinks>) -> (r: Vec<Key>)
    ensures
        keys_view(r@) == anchors_update_actions(anchors@),
{
    let mut r: Vec<Key> = Vec::new();
    let mut i: usize = 0;
    while i < anchors.len()
        invariant
            i <= anchors.len(),
            keys_view(r@) == anchors_update_actions(anchors@.subrange(0, i as int)),
        decreases anchors.len() - i,
    {
        assert(anchors@.subrange(0, i as int + 1).drop_last() =~= anchors@.subrange(0, i as int));
        assert(anchors@.subrange(0, i as int + 1).last() == anchors@[i as int]);
        let found = update_actions(&anchors[i].updates);
        append_keys(&mut r, &found);
        i += 1;
    }
    assert(anchors@.subrange(0, anchors.len() as int) =~= anchors@);
    r
}

/// Every update link of every anchor carries a well-formed update tag.
pub open spec fn anchors_tags_parse(anchors: Seq<AnchorLinks>) -> bool {
    forall|k: int| 0 <= k < anchors.len() ==> update_tags_parse(#[trigger] anchors[k].updates@)
}

/// Adds the evolution pointers declared by `anchors` to `map`; refuses a
/// malformed update tag.
pub fn add_anchor_shortcuts(map: &mut LinkPointerMap, anchors: &Vec<AnchorLinks>) -> (r: Result<(), CoopError>)
    ensures
        r is Ok <==> anchors_tags_parse(anchors@),
        r is Ok ==> pairs_view(final(map)@) == pairs_view(old(map)@) + anchors_pointer_pairs(anchors@),
        r matches Err(e) ==> e == CoopError::MalformedTag,
{
    let ghost start = pairs_view(map@);
    let mut i: usize = 0;
    while i < anchors.len()
        invariant
            i <= anchors.len(),
            start == pairs_view(old(map)@),
            pairs_view(map@) == start + anchors_pointer_pairs(anchors@.subrange(0, i as int)),
            forall|k: int| 0 <= k < i ==> update_tags_parse(#[trigger] anchors@[k].updates@),
        decreases anchors.len() - i,
    {
        assert(anchors@.subrange(0, i as int + 1).drop_last() =~= anchors@.subrange(0, i as int));
        assert(anchors@.subrange(0, i as int + 1).last() == anchors@[i as int]);
        let triples = match shortcuts(&anchors[i].updates) {
            Ok(t) => t,
            Err(e) => {
                return Err(e);
            },
        };
        insert_shortcuts(map, &triples);
        i += 1;
        assert(pairs_view(map@) =~= start + anchors_pointer_pairs(anchors@.subrange(0, i as int)));
    }
    assert(anchors@.subrange(0, anchors.len() as int) =~= anchors@);
    Ok(())
}

/// The shortcut table of a group: the pointers of its archived anchors, then
/// those of its active anchors (a later pointer from the same revision wins).
/// A malformed update tag on any anchor is refused.
pub fn group_pointer_map(archived: &Vec<AnchorLinks>, active: &Vec<AnchorLinks>) -> (r: Result<LinkPointerMap, CoopError>)
    ensures
        r is Ok <==> group_tags_parse(archived@, active@),
        r matches Ok(m) ==> pairs_view(m@) == anchors_pointer_pairs(archived@) + anchors_pointer_pairs(active@),
        r matches Err(e) ==> e == CoopError::MalformedTag,
{
    let mut map: LinkPointerMap = Vec::new();
    assert(pairs_view(map@) =~= Seq::empty());
    add_anchor_shortcuts(&mut map, archived)?;
    add_anchor_shortcuts(&mut map, active)?;
    assert(pairs_view(map@) =~= anchors_pointer_pairs(archived@) + anchors_pointer_pairs(active@));
    Ok(map)
}

/// Every update tag of a group's anchors is well formed.
pub open spec fn group_tags_parse(archived: Seq<AnchorLinks>, active: Seq<AnchorLinks>) -> bool {
    anchors_tags_parse(archived) && anchors_tags_parse(active)
}

/// A byte string held in an `Option`, as a byte sequence.
pub open spec fn opt_view(o: Option<Vec<u8>>) -> Option<Seq<u8>> {
    match o {
        Some(v) => Some(v@),
        None => None,
    }
}

/// The tag prefix that selects creation links by content type and base; no
/// prefix when a base is given without a type.
pub open spec fn tag_filter(content_type: Option<Seq<u8>>, content_base: Option<Seq<u8>>) -> Option<Seq<u8>> {
    match (content_type, content_base) {
        (None, Some(_)) => None,
        (Some(t), Some(b)) => Some(joined(t, b)),
        (Some(t), None) => Some(joined(t, Seq::empty())),
        (None, None) => Some(Seq::empty()),
    }
}

/// The content ids of a group: those of its archived anchors, then those of
/// its active anchors.
pub open spec fn group_content_ids(archived: Seq<AnchorLinks>, active: Seq<AnchorLinks>, prefix: Seq<u8>) -> Seq<Seq<u8>> {
    anchors_content_ids(archived, prefix) + anchors_content_ids(active, prefix)
}

/// The shortcut table of a group.
pub open spec fn group_pairs(archived: Seq<AnchorLinks>, active: Seq<AnchorLinks>) -> Seq<(Seq<u8>, Seq<u8>)> {
    anchors_pointer_pairs(archived) + anchors_pointer_pairs(active)
}

/// Full-trace resolution of `start`, as group `group_id` sees it, ends at `latest`.
pub open spec fn resolves_to(
    log: Seq<ActionRecord>,
    authors: Seq<Seq<u8>>,
    exceptions: Seq<Seq<u8>>,
    group_id: Seq<u8>,
    start: Seq<u8>,
    latest: Seq<u8>,
) -> bool {
    exists|p: Seq<Seq<u8>>| traced_evolution(log, false, authors, exceptions, Some(group_id), start, Ok(p)) && p.last() == latest
}

fn prefix_for(content_type: &Option<Vec<u8>>, content_base: &Option<Vec<u8>>) -> (r: Result<Vec<u8>, CoopError>)
    ensures
        match tag_filter(opt_view(*content_type), opt_view(*content_base)) {
            Some(p) => r matches Ok(v) && v@ == p,
            None => r == Err::<Vec<u8>, CoopError>(CoopError::MalformedTag),
        },
{
    creation_tag_filter(content_type, content_base)
}

/// The entries of `v` that are hashes of the given kind.
pub fn keep_kind(v: &Vec<Key>, kind: LinkableKind) -> (r: Vec<Key>)
    ensures
        keys_view(r@) == hashes_of_kind(keys_view(v@), kind),
{
    let ghost all = keys_view(v@);
    let mut r: Vec<Key> = Vec::new();
    let mut i: usize = 0;
    while i < v.len()
        invariant
            i <= v.len(),
            all == keys_view(v@),
            keys_view(r@) == hashes_of_kind(all.subrange(0, i as int), kind),
        decreases v.len() - i,
    {
        assert(all.subrange(0, i as int + 1).drop_last() =~= all.subrange(0, i as int));
        assert(all.subrange(0, i as int + 1).last() == v@[i as int]@);
        let found = match linkable_hash_kind(&v[i]) {
            Some(k) => k == kind,
            None => false,
        };
        if found {
            let ghost before = keys_view(r@);
            r.push(copy_key(&v[i]));
            assert(keys_view(r@) =~= before.push(v@[i as int]@));
        }
        i += 1;
    }
    assert(all.subrange(0, v.len() as int) =~= all);
    r
}

fn all_content_ids(archived: &Vec<AnchorLinks>, active: &Vec<AnchorLinks>, prefix: &Vec<u8>) -> (r: Vec<Key>)
    ensures
        keys_view(r@) == group_content_ids(archived@, active@, prefix@),
{
    let mut ids = content_ids(archived, prefix);
    let more = content_ids(active, prefix);
    append_keys(&mut ids, &more);
    ids
}

/// Every content item of a group with its revisions, resolved through the
/// group's shortcut table. Creation links are selected by content type and base.
pub fn follow_all_group_content_evolutions_shortcuts(
    archived: &Vec<AnchorLinks>,
    active: &Vec<AnchorLinks>,
    content_type: &Option<Vec<u8>>,
    content_base: &Option<Vec<u8>>,
) -> (r: Result<Vec<(Key, Vec<Key>)>, CoopError>)
    ensures
        match tag_filter(opt_view(*content_type), opt_view(*content_base)) {
            None => r == Err::<Vec<(Key, Vec<Key>)>, CoopError>(CoopError::MalformedTag),
            Some(prefix) => if !group_tags_parse(archived@, active@) {
                r == Err::<Vec<(Key, Vec<Key>)>, CoopError>(CoopError::MalformedTag)
            } else {
                match r {
                    Ok(v) => v.len() == group_content_ids(archived@, active@, prefix).len() && forall|k: int|
                        0 <= k < v.len() ==> (#[trigger] v@[k]).0@ == group_content_ids(archived@, active@, prefix)[k]
                            && walk_ends_with(
                            shortcut_step(group_pairs(archived@, active@)),
                            v@[k].0@,
                            keys_view(v@[k].1@),
                        ),
                    Err(e) => e == CoopError::CycleDetected && exists|k: int|
                        0 <= k < group_content_ids(archived@, active@, prefix).len() && walk_repeats(
                            shortcut_step(group_pairs(archived@, active@)),
                            #[trigger] group_content_ids(archived@, active@, prefix)[k],
                        ),
                }
            },
        },
{
    let prefix = prefix_for(content_type, content_base)?;
    let ids = all_content_ids(archived, active, &prefix);
    let map = group_pointer_map(archived, active)?;
    let ghost gids = group_content_ids(archived@, active@, prefix@);
    let mut out: Vec<(Key, Vec<Key>)> = Vec::new();
    let mut i: usize = 0;
    while i < ids.len()
        invariant
            i <= ids.len(),
            keys_view(ids@) == gids,
            gids == group_content_ids(archived@, active@, prefix@),
            tag_filter(opt_view(*content_type), opt_view(*content_base)) == Some(prefix@),
            group_tags_parse(archived@, active@),
            pairs_view(map@) == group_pairs(archived@, active@),
            out.len() == i,
            forall|k: int|
                0 <= k < i ==> (#[trigger] out@[k]).0@ == gids[k] && walk_ends_with(
                    shortcut_step(group_pairs(archived@, active@)),
                    out@[k].0@,
                    keys_view(out@[k].1@),
                ),
        decreases ids.len() - i,
    {
        assert(keys_view(ids@)[i as int] == ids@[i as int]@);
        match follow_update_map(&ids[i], &map) {
            Ok(path) => {
                out.push((copy_key(&ids[i]), path));
            },
            Err(e) => {
                proof {
                    let pf = tag_filter(opt_view(*content_type), opt_view(*content_base))->0;
                    assert(pf == prefix@);
                    assert(group_content_ids(archived@, active@, pf) == gids);
                    assert(walk_repeats(shortcut_step(group_pairs(archived@, active@)), gids[i as int]));
                    assert(exists|k: int|
                        0 <= k < group_content_ids(archived@, active@, pf).len() && walk_repeats(
                            shortcut_step(group_pairs(archived@, active@)),
                            #[trigger] group_content_ids(archived@, active@, pf)[k],
                        ));
                }
                return Err(e);
            },
        }
        i += 1;
    }
    Ok(out)
}

/// Every content item of a group with its latest revision, resolved through
/// the group's shortcut table.
pub fn get_all_group_content_targets_shortcuts(
    archived: &Vec<AnchorLinks>,
    active: &Vec<AnchorLinks>,
    content_type: &Option<Vec<u8>>,
    content_base: &Option<Vec<u8>>,
) -> (r: Result<Vec<(Key, Key)>, CoopError>)
    ensures
        match tag_filter(opt_view(*content_type), opt_view(*content_base)) {
            None => r == Err::<Vec<(Key, Key)>, CoopError>(CoopError::MalformedTag),
            Some(prefix) => if !group_tags_parse(archived@, active@) {
                r == Err::<Vec<(Key, Key)>, CoopError>(CoopError::MalformedTag)
            } else {
                match r {
                    Ok(v) => v.len() == group_content_ids(archived@, active@, prefix).len() && forall|k: int|
                        0 <= k < v.len() ==> (#[trigger] v@[k]).0@ == group_content_ids(archived@, active@, prefix)[k]
                            && exists|p: Seq<Seq<u8>>|
                            walk_ends_with(shortcut_step(group_pairs(archived@, active@)), v@[k].0@, p)
                                && p.last() == v@[k].1@,
                    Err(e) => e == CoopError::CycleDetected && exists|k: int|
                        0 <= k < group_content_ids(archived@, active@, prefix).len() && walk_repeats(
                            shortcut_step(group_pairs(archived@, active@)),
                            #[trigger] group_content_ids(archived@, active@, prefix)[k],
                        ),
                }
            },
        },
{
    let all = follow_all_group_content_evolutions_shortcuts(archived, active, content_type, content_base)?;
    let ghost step = shortcut_step(group_pairs(archived@, active@));
    let mut out: Vec<(Key, Key)> = Vec::new();
    let mut i: usize = 0;
    while i < all.len()
        invariant
            i <= all.len(),
            out.len() == i,
            step == shortcut_step(group_pairs(archived@, active@)),
            tag_filter(opt_view(*content_type), opt_view(*content_base)) is Some ==> group_tags_parse(
                archived@,
                active@,
            ),
            forall|k: int| 0 <= k < all.len() ==> walk_ends_with(step, (#[trigger] all@[k]).0@, keys_view(all@[k].1@)),
            forall|k: int|
                0 <= k < i ==> (#[trigger] out@[k]).0@ == all@[k].0@ && exists|p: Seq<Seq<u8>>|
                    walk_ends_with(step, out@[k].0@, p) && p.last() == out@[k].1@,
        decreases all.len() - i,
    {
        let path = &all[i].1;
        let last = copy_key(&path[path.len() - 1]);
        assert(keys_view(path@).last() == last@);
        out.push((copy_key(&all[i].0), last));
        assert(walk_ends_with(step, out@[i as int].0@, keys_view(path@)));
        i += 1;
    }
    Ok(out)
}

/// Every content item of a group that is an action, with its latest revision
/// found by full trace: at each revision, the earliest update written by a
/// current contributor or attached under one of the group's archived anchors.
pub fn get_all_group_content_targets_full_trace(
    group_id: &Key,
    group: &GroupEntry,
    log: &Vec<ActionRecord>,
    archived: &Vec<AnchorLinks>,
    active: &Vec<AnchorLinks>,
    content_type: &Option<Vec<u8>>,
    content_base: &Option<Vec<u8>>,
) -> (r: Result<Vec<(Key, Key)>, CoopError>)
    ensures
        match tag_filter(opt_view(*content_type), opt_view(*content_base)) {
            None => r == Err::<Vec<(Key, Key)>, CoopError>(CoopError::MalformedTag),
            Some(prefix) => match r {
                Ok(v) => v.len() == action_hashes(group_content_ids(archived@, active@, prefix)).len()
                    && forall|k: int|
                    0 <= k < v.len() ==> (#[trigger] v@[k]).0@ == action_hashes(
                        group_content_ids(archived@, active@, prefix),
                    )[k] && resolves_to(
                        log@,
                        contributor_seq(group),
                        anchors_update_actions(archived@),
                        group_id@,
                        v@[k].0@,
                        v@[k].1@,
                    ),
                Err(e) => exists|k: int|
                    0 <= k < action_hashes(group_content_ids(archived@, active@, prefix)).len()
                        && traced_evolution(
                        log@,
                        false,
                        contributor_seq(group),
                        anchors_update_actions(archived@),
                        Some(group_id@),
                        #[trigger] action_hashes(group_content_ids(archived@, active@, prefix))[k],
                        Err(e),
                    ),
            },
        },
{
    let prefix = prefix_for(content_type, content_base)?;
    let all_ids = all_content_ids(archived, active, &prefix);
    let ids = keep_kind(&all_ids, LinkableKind::Action);
    let authors = group.contributors();
    let exceptions = archived_update_actions(archived);
    let ghost gids = action_hashes(group_content_ids(archived@, active@, prefix@));
    let ghost au = contributor_seq(group);
    let ghost ex = anchors_update_actions(archived@);
    let mut out: Vec<(Key, Key)> = Vec::new();
    let mut i: usize = 0;
    while i < ids.len()
        invariant
            i <= ids.len(),
            keys_view(ids@) == gids,
            gids == action_hashes(group_content_ids(archived@, active@, prefix@)),
            tag_filter(opt_view(*content_type), opt_view(*content_base)) == Some(prefix@),
            au == contributor_seq(group),
            ex == anchors_update_actions(archived@),
            keys_view(authors@) == au,
            keys_view(exceptions@) == ex,
            out.len() == i,
            forall|k: int|
                0 <= k < i ==> (#[trigger] out@[k]).0@ == gids[k] && resolves_to(log@, au, ex, group_id@, out@[k].0@, out@[k].1@),
        decreases ids.len() - i,
    {
        assert(keys_view(ids@)[i as int] == ids@[i as int]@);
        match trace_group_evolutions(&ids[i], log, group_id, &authors, &exceptions) {
            Ok(path) => {
                let last = copy_key(&path[path.len() - 1]);
                assert(keys_view(path@).last() == last@);
                out.push((copy_key(&ids[i]), last));
                assert(traced_evolution(log@, false, au, ex, Some(group_id@), out@[i as int].0@, Ok(keys_view(path@))));
            },
            Err(e) => {
                assert(traced_evolution(
                    log@,
                    false,
                    contributor_seq(group),
                    anchors_update_actions(archived@),
                    Some(group_id@),
                    action_hashes(group_content_ids(archived@, active@, prefix@))[i as int],
                    Err(e),
                ));
                proof {
                    let pf = tag_filter(opt_view(*content_type), opt_view(*content_base))->0;
                    assert(pf == prefix@);
                    assert(action_hashes(group_content_ids(archived@, active@, pf)) == gids);
                    assert(exists|k: int|
                        0 <= k < action_hashes(group_content_ids(archived@, active@, pf)).len()
                            && traced_evolution(
                            log@,
                            false,
                            contributor_seq(group),
                            anchors_update_actions(archived@),
                            Some(group_id@),
                            #[trigger] action_hashes(group_content_ids(archived@, active@, pf))[k],
                            Err(e),
                        ));
                }
                return Err(e);
            },
        }
        i += 1;
    }
    Ok(out)
}

/// The revisions of one content item as the group sees them, by full trace.
pub fn get_group_content_evolutions_full_trace(
    content_id: &Key,
    group_id: &Key,
    group: &GroupEntry,
    log: &Vec<ActionRecord>,
    archived: &Vec<AnchorLinks>,
) -> (r: Result<Vec<Key>, CoopError>)
    ensures
        traced_evolution(
            log@,
            false,
            contributor_seq(group),
            anchors_update_actions(archived@),
            Some(group_id@),
            content_id@,
            path_view(r),
        ),
{
    let authors = group.contributors();
    let exceptions = archived_update_actions(archived);
    trace_group_evolutions(content_id, log, group_id, &authors, &exceptions)
}

/// The latest revision of one content item as the group sees it, by full trace.
pub fn get_group_content_latest_full_trace(
    content_id: &Key,
    group_id: &Key,
    group: &GroupEntry,
    log: &Vec<ActionRecord>,
    archived: &Vec<AnchorLinks>,
) -> (r: Result<Key, CoopError>)
    ensures
        match r {
            Ok(h) => resolves_to(log@, contributor_seq(group), anchors_update_actions(archived@), group_id@, content_id@, h@),
            Err(e) => traced_evolution(
                log@,
                false,
                contributor_seq(group),
                anchors_update_actions(archived@),
                Some(group_id@),
                content_id@,
                Err(e),
            ),
        },
{
    let path = get_group_content_evolutions_full_trace(content_id, group_id, group, log, archived)?;
    let last = copy_key(&path[path.len() - 1]);
    assert(keys_view(path@).last() == last@);
    Ok(last)
}

/// The revisions of one content item of the group, through the shortcut
/// table; the item must be among the group's content.
pub fn get_group_content_evolutions_shortcuts(
    content_id: &Key,
    archived: &Vec<AnchorLinks>,
    active: &Vec<AnchorLinks>,
) -> (r: Result<Vec<Key>, CoopError>)
    ensures
        !group_content_ids(archived@, active@, Seq::empty()).contains(content_id@) ==> r
            == Err::<Vec<Key>, CoopError>(CoopError::NotFound),
        group_content_ids(archived@, active@, Seq::empty()).contains(content_id@) && !group_tags_parse(
            archived@,
            active@,
        ) ==> r == Err::<Vec<Key>, CoopError>(CoopError::MalformedTag),
        group_content_ids(archived@, active@, Seq::empty()).contains(content_id@) && group_tags_parse(
            archived@,
            active@,
        ) ==> match r {
            Ok(p) => walk_ends_with(shortcut_step(group_pairs(archived@, active@)), content_id@, keys_view(p@)),
            Err(e) => e == CoopError::CycleDetected && walk_repeats(
                shortcut_step(group_pairs(archived@, active@)),
                content_id@,
            ),
        },
{
    let everything: Vec<u8> = Vec::new();
    let ids = all_content_ids(archived, active, &everything);
    if !contains_key(&ids, content_id) {
        return Err(CoopError::NotFound);
    }
    let map = group_pointer_map(archived, active)?;
    follow_update_map(content_id, &map)
}

/// The latest revision of one content item of the group, through the
/// shortcut table.
pub fn get_group_content_latest_shortcuts(
    content_id: &Key,
    archived: &Vec<AnchorLinks>,
    active: &Vec<AnchorLinks>,
) -> (r: Result<Key, CoopError>)
    ensures
        !group_content_ids(archived@, active@, Seq::empty()).contains(content_id@) ==> r
            == Err::<Key, CoopError>(CoopError::NotFound),
        group_content_ids(archived@, active@, Seq::empty()).contains(content_id@) && !group_tags_parse(
            archived@,
            active@,
        ) ==> r == Err::<Key, CoopError>(CoopError::MalformedTag),
        group_content_ids(archived@, active@, Seq::empty()).contains(content_id@) && group_tags_parse(
            archived@,
            active@,
        ) ==> match r {
            Ok(h) => exists|p: Seq<Seq<u8>>|
                walk_ends_with(shortcut_step(group_pairs(archived@, active@)), content_id@, p) && p.last() == h@,
            Err(e) => e == CoopError::CycleDetected && walk_repeats(
                shortcut_step(group_pairs(archived@, active@)),
                content_id@,
            ),
        },
{
    let path = get_group_content_evolutions_shortcuts(content_id, archived, active)?;
    let last = copy_key(&path[path.len() - 1]);
    assert(keys_view(path@).last() == last@);
    Ok(last)
}

/// The latest revision of a group: `group_id` must be the create record at
/// the root of its own lineage, and the revision is reached by following, at
/// each revision, its earliest update.
pub fn get_group_revision(group_id: &Key, log: &Vec<ActionRecord>) -> (r: Result<Key, CoopError>)
    ensures
        r is Ok <==> crate::validation::root_is(log@, group_id@, group_id@) && !walk_repeats(
            evolution_step(log@, true, Seq::empty(), Seq::empty(), None),
            group_id@,
        ),
        r matches Ok(h) ==> exists|p: Seq<Seq<u8>>|
            traced_evolution(log@, true, Seq::empty(), Seq::empty(), None, group_id@, Ok(p)) && p.last() == h@,
        r matches Err(e) ==> if crate::validation::root_is(log@, group_id@, group_id@) {
            traced_evolution(log@, true, Seq::empty(), Seq::empty(), None, group_id@, Err(e))
        } else {
            e == CoopError::LineageMismatch || crate::lineage::traced_origin(log@, group_id@, Err(e))
        },
{
    let root = match crate::lineage::get_root_origin(group_id, log) {
        Ok(root) => root,
        Err(e) => {
            return Err(e);
        },
    };
    proof {
        let p = choose|p: Seq<Seq<u8>>|
            walk_ends_with(crate::lineage::lineage_step(log@), group_id@, p)
                && crate::lineage::ends_at_create(log@, p.last()) && p.last() == root@;
        assert forall|q: Seq<Seq<u8>>|
            walk_ends_with(crate::lineage::lineage_step(log@), group_id@, q) && crate::lineage::ends_at_create(
                log@,
                q.last(),
            ) implies q.last() == root@ by {
            crate::walk::lemma_walk_unique(crate::lineage::lineage_step(log@), group_id@, p, q);
        }
    }
    if !crate::keys::same_key(&root, group_id) {
        proof {
            assert forall|q: Seq<Seq<u8>>|
                walk_ends_with(crate::lineage::lineage_step(log@), group_id@, q) && crate::lineage::ends_at_create(
                    log@,
                    q.last(),
                ) implies q.last() != group_id@ by {
                let p = choose|p: Seq<Seq<u8>>|
                    walk_ends_with(crate::lineage::lineage_step(log@), group_id@, p)
                        && crate::lineage::ends_at_create(log@, p.last()) && p.last() == root@;
                crate::walk::lemma_walk_unique(crate::lineage::lineage_step(log@), group_id@, p, q);
            }
        }
        return Err(CoopError::LineageMismatch);
    }
    proof {
        let p = choose|p: Seq<Seq<u8>>|
            walk_ends_with(crate::lineage::lineage_step(log@), group_id@, p)
                && crate::lineage::ends_at_create(log@, p.last()) && p.last() == root@;
        assert(crate::lineage::ends_at_create(log@, group_id@));
    }
    match crate::evolution::latest_evolution(group_id, log) {
        Ok(h) => Ok(h),
        Err(e) => Err(e),
    }
}

/// Every admitted update of a revision is registered as a pointer from that
/// revision: its author attached it to their anchor, or it was copied to an
/// archived anchor when its author left.
pub open spec fn updates_registered(
    pairs: Seq<(Seq<u8>, Seq<u8>)>,
    log: Seq<ActionRecord>,
    authors: Seq<Seq<u8>>,
    exceptions: Seq<Seq<u8>>,
    group_id: Seq<u8>,
) -> bool {
    forall|h: Seq<u8>, i: int|
        #[trigger] is_candidate(log, false, authors, exceptions, Some(group_id), h, i) ==> pairs.contains((h, log[i].hash@))
}

/// Every pointer stands for an admitted update of the revision it starts at,
/// as the checks made when a link is attached ensure.
pub open spec fn pointers_admitted(
    pairs: Seq<(Seq<u8>, Seq<u8>)>,
    log: Seq<ActionRecord>,
    authors: Seq<Seq<u8>>,
    exceptions: Seq<Seq<u8>>,
    group_id: Seq<u8>,
) -> bool {
    forall|k: int|
        0 <= k < pairs.len() ==> exists|i: int|
            is_candidate(log, false, authors, exceptions, Some(group_id), (#[trigger] pairs[k]).0, i) && log[i].hash@ == pairs[k].1
}

/// No revision has two different admitted updates.
pub open spec fn no_admitted_branches(
    log: Seq<ActionRecord>,
    authors: Seq<Seq<u8>>,
    exceptions: Seq<Seq<u8>>,
    group_id: Seq<u8>,
) -> bool {
    forall|h: Seq<u8>, i: int, j: int|
        #[trigger] is_candidate(log, false, authors, exceptions, Some(group_id), h, i) && #[trigger] is_candidate(
            log,
            false,
            authors,
            exceptions,
            Some(group_id),
            h,
            j,
        ) ==> log[i].hash@ == log[j].hash@
}

/// Full trace and shortcut resolution agree for every content item of a group
/// whose history was written through the group's operations (admission here
/// includes that an update declares the group `group_id`): where every
/// admitted update is registered on an anchor of the group, every registered
/// pointer is an admitted update, and no revision has two admitted updates,
/// both resolutions visit the same revisions, end at the same latest
/// revision, and fail on the same items.
pub proof fn lemma_resolutions_agree(
    log: Seq<ActionRecord>,
    group_id: Seq<u8>,
    group: GroupEntry,
    archived: Seq<AnchorLinks>,
    active: Seq<AnchorLinks>,
)
    requires
        updates_registered(
            group_pairs(archived, active),
            log,
            contributor_seq(&group),
            anchors_update_actions(archived),
            group_id,
        ),
        pointers_admitted(
            group_pairs(archived, active),
            log,
            contributor_seq(&group),
            anchors_update_actions(archived),
            group_id,
        ),
        no_admitted_branches(log, contributor_seq(&group), anchors_update_actions(archived), group_id),
    ensures
        forall|start: Seq<u8>, p: Seq<Seq<u8>>|
            walk_ends_with(shortcut_step(group_pairs(archived, active)), start, p) <==> walk_ends_with(
                evolution_step(log, false, contributor_seq(&group), anchors_update_actions(archived), Some(group_id)),
                start,
                p,
            ),
        forall|start: Seq<u8>|
            walk_repeats(shortcut_step(group_pairs(archived, active)), start) <==> walk_repeats(
                evolution_step(log, false, contributor_seq(&group), anchors_update_actions(archived), Some(group_id)),
                start,
            ),
{
    let pairs = group_pairs(archived, active);
    let au = contributor_seq(&group);
    let ex = anchors_update_actions(archived);
    let full = evolution_step(log, false, au, ex, Some(group_id));
    let short = shortcut_step(pairs);
    assert forall|h: Seq<u8>| #[trigger] short(h) == full(h) by {
        lemma_earliest_candidate(log, false, au, ex, Some(group_id), h, log.len());
        lemma_pointer_in_pairs(pairs, h);
        match pointer_of(pairs, h) {
            Some(x) => {
                let k = choose|k: int| 0 <= k < pairs.len() && #[trigger] pairs[k] == (h, x);
                assert(pairs[k].0 == h);
                let i = choose|i: int| is_candidate(log, false, au, ex, Some(group_id), pairs[k].0, i) && log[i].hash@ == pairs[k].1;
                let b = earliest_candidate(log, false, au, ex, Some(group_id), h, log.len())->0;
                assert(is_candidate(log, false, au, ex, Some(group_id), h, b));
            },
            None => {
                if let Some(b) = earliest_candidate(log, false, au, ex, Some(group_id), h, log.len()) {
                    assert(is_candidate(log, false, au, ex, Some(group_id), h, b));
                    assert(pairs.contains((h, log[b].hash@)));
                    let k = choose|k: int| 0 <= k < pairs.len() && pairs[k] == (h, log[b].hash@);
                    lemma_pointer_found(pairs, h, k);
                }
            },
        }
    }
    assert(short =~= full);
}

} // verus!
