//! Reading the links of a group revision and of an anchor, once fetched.

use vstd::prelude::*;
use crate::error::CoopError;
use crate::keys::{Key, keys_view, copy_key};
use crate::hash::LinkableKind;
use crate::membership::GroupEntry;
use crate::anchor::{ContributionsAnchorEntry, ArchivedContributionsAnchorEntry};
use crate::shortcut::{Link, shortcuts_of, triples_view, update_tags_parse};
use crate::catalog::{creation_targets, hashes_of_kind, opt_view, tag_filter, keep_kind, create_targets};
use crate::tag::creation_tag_filter;

verus! {

/// The targets of `links`, in order.
pub open spec fn link_targets(links: Seq<Link>) -> Seq<Seq<u8>> {
    links.map_values(|l: Link| l.target@)
}

/// The targets of `links`.
pub fn targets_of(links: &Vec<Link>) -> (r: Vec<Key>)
    ensures
        keys_view(r@) == link_targets(links@),
{
    let mut r: Vec<Key> = Vec::new();
    let mut i: usize = 0;
    while i < links.len()
        invariant
            i <= links.len(),
            keys_view(r@) == link_targets(links@).subrange(0, i as int),
        decreases links.len() - i,
    {
        let ghost before = keys_view(r@);
        r.push(copy_key(&links[i].target));
        assert(keys_view(r@) =~= before.push(links@[i as int].target@));
        i += 1;
        assert(keys_view(r@) =~= link_targets(links@).subrange(0, i as int));
    }
    assert(link_targets(links@).subrange(0, links.len() as int) =~= link_targets(links@));
    r
}

/// The anchors that a group revision links to.
pub trait GroupLinks {
    /// The active anchors linked from a revision: the entry-hash targets of
    /// its authority links.
    fn group_auth_anchor_hashes(links: &Vec<Link>) -> (r: Vec<Key>)
        ensures
            keys_view(r@) == hashes_of_kind(link_targets(links@), LinkableKind::Entry),
    ;

    /// The archived anchors linked from a revision: the entry-hash targets of
    /// its archive links.
    fn group_auth_archive_anchor_hashes(links: &Vec<Link>) -> (r: Vec<Key>)
        ensures
            keys_view(r@) == hashes_of_kind(link_targets(links@), LinkableKind::Entry),
    ;
}

impl GroupLinks for GroupEntry {
    fn group_auth_anchor_hashes(links: &Vec<Link>) -> (r: Vec<Key>) {
        let targets = targets_of(links);
        keep_kind(&targets, LinkableKind::Entry)
    }

    fn group_auth_archive_anchor_hashes(links: &Vec<Link>) -> (r: Vec<Key>) {
        let targets = targets_of(links);
        keep_kind(&targets, LinkableKind::Entry)
    }
}

/// Reading the links of an active anchor.
pub trait ContributionsLinks {
    /// The content ids among creation links whose tag matches the content
    /// type and base; a base without a type is refused.
    fn create_targets(
        &self,
        links: &Vec<Link>,
        content_type: &Option<Vec<u8>>,
        content_base: &Option<Vec<u8>>,
    ) -> (r: Result<Vec<Key>, CoopError>)
        ensures
            match tag_filter(opt_view(*content_type), opt_view(*content_base)) {
                None => r == Err::<Vec<Key>, CoopError>(CoopError::MalformedTag),
                Some(p) => r matches Ok(v) && keys_view(v@) == creation_targets(links@, p),
            },
    ;

    /// The revisions that update links point to.
    fn update_targets(&self, links: &Vec<Link>) -> (r: Vec<Key>)
        ensures
            keys_view(r@) == link_targets(links@),
    ;

    /// The `(content_id, previous, next)` pointers that update links declare;
    /// a malformed tag is refused.
    fn shortcuts(&self, links: &Vec<Link>) -> (r: Result<Vec<(Key, Key, Key)>, CoopError>)
        ensures
            r is Ok <==> update_tags_parse(links@),
            r matches Ok(v) ==> triples_view(v@) == shortcuts_of(links@),
            r matches Err(e) ==> e == CoopError::MalformedTag,
    ;
}

/// Reading the links of an archived anchor.
pub trait ArchivedContributionsLinks {
    /// The content ids among creation links whose tag matches the content
    /// type and base; a base without a type is refused.
    fn create_targets(
        &self,
        links: &Vec<Link>,
        content_type: &Option<Vec<u8>>,
        content_base: &Option<Vec<u8>>,
    ) -> (r: Result<Vec<Key>, CoopError>)
        ensures
            match tag_filter(opt_view(*content_type), opt_view(*content_base)) {
                None => r == Err::<Vec<Key>, CoopError>(CoopError::MalformedTag),
                Some(p) => r matches Ok(v) && keys_view(v@) == creation_targets(links@, p),
            },
    ;

    /// The revisions that update links point to.
    fn update_targets(&self, links: &Vec<Link>) -> (r: Vec<Key>)
        ensures
            keys_view(r@) == link_targets(links@),
    ;

    /// The `(content_id, previous, next)` pointers that update links declare;
    /// a malformed tag is refused.
    fn shortcuts(&self, links: &Vec<Link>) -> (r: Result<Vec<(Key, Key, Key)>, CoopError>)
        ensures
            r is Ok <==> update_tags_parse(links@),
            r matches Ok(v) ==> triples_view(v@) == shortcuts_of(links@),
            r matches Err(e) ==> e == CoopError::MalformedTag,
    ;
}

fn filtered_targets(
    links: &Vec<Link>,
    content_type: &Option<Vec<u8>>,
    content_base: &Option<Vec<u8>>,
) -> (r: Result<Vec<Key>, CoopError>)
    ensures
        match tag_filter(opt_view(*content_type), opt_view(*content_base)) {
            None => r == Err::<Vec<Key>, CoopError>(CoopError::MalformedTag),
            Some(p) => r matches Ok(v) && keys_view(v@) == creation_targets(links@, p),
        },
{
    let prefix = creation_tag_filter(content_type, content_base)?;
    Ok(create_targets(links, &prefix))
}

impl ContributionsLinks for ContributionsAnchorEntry {
    fn create_targets(
        &self,
        links: &Vec<Link>,
        content_type: &Option<Vec<u8>>,
        content_base: &Option<Vec<u8>>,
    ) -> (r: Result<Vec<Key>, CoopError>) {
        filtered_targets(links, content_type, content_base)
    }

    fn update_targets(&self, links: &Vec<Link>) -> (r: Vec<Key>) {
        targets_of(links)
    }

    fn shortcuts(&self, links: &Vec<Link>) -> (r: Result<Vec<(Key, Key, Key)>, CoopError>) {
        crate::shortcut::shortcuts(links)
    }
}

impl ArchivedContributionsLinks for ArchivedContributionsAnchorEntry {
    fn create_targets(
        &self,
        links: &Vec<Link>,
        content_type: &Option<Vec<u8>>,
        content_base: &Option<Vec<u8>>,
    ) -> (r: Result<Vec<Key>, CoopError>) {
        filtered_targets(links, content_type, content_base)
    }

    fn update_targets(&self, links: &Vec<Link>) -> (r: Vec<Key>) {
        targets_of(links)
    }

    fn shortcuts(&self, links: &Vec<Link>) -> (r: Result<Vec<(Key, Key, Key)>, CoopError>) {
        crate::shortcut::shortcuts(links)
    }
}

/// A link as listed for deletion: the hash of the action that created it,
/// and its target.
pub open spec fn matching_hashes(links: Seq<(Key, Key)>, target: Seq<u8>) -> Seq<Seq<u8>>
    decreases links.len(),
{
    if links.len() == 0 {
        Seq::empty()
    } else if links.last().1@ == target {
        matching_hashes(links.drop_last(), target).push(links.last().0@)
    } else {
        matching_hashes(links.drop_last(), target)
    }
}

/// Of `(create_link_hash, target)` pairs, the create hashes of the links
/// that point to `target`: the links that a delete request for `target` removes.
pub fn links_to_delete(links: &Vec<(Key, Key)>, target: &Key) -> (r: Vec<Key>)
    ensures
        keys_view(r@) == matching_hashes(links@, target@),
{
    let mut r: Vec<Key> = Vec::new();
    let mut i: usize = 0;
    while i < links.len()
        invariant
            i <= links.len(),
            keys_view(r@) == matching_hashes(links@.subrange(0, i as int), target@),
        decreases links.len() - i,
    {
        assert(links@.subrange(0, i as int + 1).drop_last() =~= links@.subrange(0, i as int));
        assert(links@.subrange(0, i as int + 1).last() == links@[i as int]);
        if crate::keys::same_key(&links[i].1, target) {
            let ghost before = keys_view(r@);
            r.push(copy_key(&links[i].0));
            assert(keys_view(r@) =~= before.push(links@[i as int].0@));
        }
        i += 1;
    }
    assert(links@.subrange(0, links.len() as int) =~= links@);
    r
}

} // verus!
