//! The rules a write must pass before the log accepts it.
//!
//! A group is created or changed only by its admins; content is attached
//! under an active anchor only by that anchor's author, and under an archived
//! anchor only by an admin of the revision it freezes; a content item's group
//! reference must name the root of the group revision it declares.

use vstd::prelude::*;
use crate::error::CoopError;
use crate::keys::{Key, keys_view, same_key};
use crate::membership::{GroupEntry, contributor_set};
use crate::anchor::{
    ContributionAnchors, ContributionsAnchorEntry, ArchivedContributionsAnchorEntry, anchor_author,
};
use crate::records::ActionRecord;
use crate::lineage::{lineage_step, ends_at_create, get_root_origin, traced_origin};
use crate::hash::{LinkableKind, linkable_kind, is_action_hash};
use crate::tag::{parsed_update_tag, parse_update_tag};
use crate::walk::walk_ends_with;

verus! {

/// The records that this library defines.
#[derive(Clone, Debug)]
pub enum EntryTypes {
    Group(GroupEntry),
    ContributionsAnchor(ContributionsAnchorEntry),
    ArchivedContributionsAnchor(ArchivedContributionsAnchorEntry),
}

/// The kinds of record that this library defines.
#[derive(Debug, Clone, Copy, PartialEq, Eq, Structural)]
pub enum EntryTypesUnit {
    Group,
    ContributionsAnchor,
    ArchivedContributionsAnchor,
}

/// The kinds of link that this library defines.
#[derive(Debug, Clone, Copy, PartialEq, Eq, Structural)]
pub enum LinkTypes {
    /// Agent to a group it is invited to.
    GroupInvite,
    /// Agent to a group it created.
    Group,
    /// Group revision to the active anchor of a current contributor.
    GroupAuth,
    /// Group revision to the archived anchor of a removed contributor.
    GroupAuthArchive,
    /// Anchor to a content id.
    Contribution,
    /// Anchor to a content revision, tagged `content_id:previous`.
    ContributionUpdate,
}

/// The create record of a group must be written by one of its admins; an
/// anchor may be created by anyone.
pub fn validate_create_entry(entry: &EntryTypes, author: &Key) -> (r: Result<(), CoopError>)
    ensures
        match entry {
            EntryTypes::Group(g) => if keys_view(g.admins@).contains(author@) {
                r is Ok
            } else {
                r == Err::<(), CoopError>(CoopError::Unauthorized)
            },
            _ => r is Ok,
        },
{
    match entry {
        EntryTypes::Group(g) => {
            if g.is_admin(author) {
                Ok(())
            } else {
                Err(CoopError::Unauthorized)
            }
        },
        _ => Ok(()),
    }
}

/// A group may be updated only by an admin of the revision it replaces, and
/// never to a state without admins; nothing else may be updated.
pub fn validate_update_entry(entry: &EntryTypes, previous: &GroupEntry, author: &Key) -> (r: Result<(), CoopError>)
    ensures
        match entry {
            EntryTypes::Group(g) => if !keys_view(previous.admins@).contains(author@) {
                r == Err::<(), CoopError>(CoopError::Unauthorized)
            } else if g.admins.len() == 0 {
                r == Err::<(), CoopError>(CoopError::EmptyAdminSet)
            } else {
                r is Ok
            },
            _ => r == Err::<(), CoopError>(CoopError::Unauthorized),
        },
{
    match entry {
        EntryTypes::Group(g) => {
            if !previous.is_admin(author) {
                Err(CoopError::Unauthorized)
            } else if g.admins.len() == 0 {
                Err(CoopError::EmptyAdminSet)
            } else {
                Ok(())
            }
        },
        _ => Err(CoopError::Unauthorized),
    }
}

/// Groups and anchors are never deleted: groups carry the history of who
/// could write, and anchors the continuity of every content item's evolution.
pub fn validation(unit: EntryTypesUnit) -> (r: Result<(), CoopError>)
    ensures
        r == Err::<(), CoopError>(CoopError::Unauthorized),
{
    match unit {
        EntryTypesUnit::Group => Err(CoopError::Unauthorized),
        EntryTypesUnit::ContributionsAnchor => Err(CoopError::Unauthorized),
        EntryTypesUnit::ArchivedContributionsAnchor => Err(CoopError::Unauthorized),
    }
}

/// Tracing `rev` back through the log ends at the create record `id`.
pub open spec fn root_is(log: Seq<ActionRecord>, rev: Seq<u8>, id: Seq<u8>) -> bool {
    exists|p: Seq<Seq<u8>>|
        walk_ends_with(lineage_step(log), rev, p) && ends_at_create(log, p.last()) && p.last() == id
}

/// Tracing `rev` back through the log ends at a create record other than `id`.
pub open spec fn root_differs(log: Seq<ActionRecord>, rev: Seq<u8>, id: Seq<u8>) -> bool {
    exists|p: Seq<Seq<u8>>|
        walk_ends_with(lineage_step(log), rev, p) && ends_at_create(log, p.last()) && p.last() != id
}

/// Whether `id` is the root of `rev`'s lineage.
fn check_root(rev: &Key, id: &Key, log: &Vec<ActionRecord>) -> (r: Result<(), CoopError>)
    ensures
        r is Ok <==> root_is(log@, rev@, id@),
        root_differs(log@, rev@, id@) ==> r == Err::<(), CoopError>(CoopError::LineageMismatch),
        r matches Err(e) ==> e == CoopError::LineageMismatch || traced_origin(log@, rev@, Err(e)),
{
    let root = match get_root_origin(rev, log) {
        Ok(root) => root,
        Err(e) => {
            return Err(e);
        },
    };
    let ghost step = lineage_step(log@);
    proof {
        let p = choose|p: Seq<Seq<u8>>|
            walk_ends_with(step, rev@, p) && ends_at_create(log@, p.last()) && p.last() == root@;
        assert forall|q: Seq<Seq<u8>>| walk_ends_with(step, rev@, q) implies q.last() == root@ by {
            crate::walk::lemma_walk_unique(step, rev@, p, q);
        }
    }
    if same_key(&root, id) {
        Ok(())
    } else {
        Err(CoopError::LineageMismatch)
    }
}

/// A content item's group reference `(group_id, group_revision)` is valid:
/// an update keeps the group id of the record it replaces, and the group id
/// is the root of the declared revision.
pub fn validate_group_ref(
    group_ref: &(Key, Key),
    previous_ref: &Option<(Key, Key)>,
    log: &Vec<ActionRecord>,
) -> (r: Result<(), CoopError>)
    ensures
        r is Ok <==> (match previous_ref {
            Some(p) => p.0@ == group_ref.0@,
            None => true,
        }) && root_is(log@, group_ref.1@, group_ref.0@),
        (match previous_ref {
            Some(p) => p.0@ != group_ref.0@,
            None => false,
        }) ==> r == Err::<(), CoopError>(CoopError::LineageMismatch),
        root_differs(log@, group_ref.1@, group_ref.0@) ==> r == Err::<(), CoopError>(
            CoopError::LineageMismatch,
        ),
        r matches Err(e) ==> e == CoopError::LineageMismatch || traced_origin(log@, group_ref.1@, Err(e)),
{
    if let Some(p) = previous_ref {
        if !same_key(&p.0, &group_ref.0) {
            return Err(CoopError::LineageMismatch);
        }
    }
    check_root(&group_ref.1, &group_ref.0, log)
}

/// The author of a content record is a contributor of the group revision
/// that the record declares.
pub fn validate_group_member(group_at_revision: &GroupEntry, author: &Key) -> (r: Result<(), CoopError>)
    ensures
        r is Ok <==> contributor_set(group_at_revision).contains(author@),
        r matches Err(e) ==> e == CoopError::Unauthorized,
{
    if group_at_revision.is_contributor(author) {
        Ok(())
    } else {
        Err(CoopError::Unauthorized)
    }
}

/// A content record's group reference is valid and its author may write for
/// the group at the declared revision.
pub fn validate_group_auth(
    group_ref: &(Key, Key),
    previous_ref: &Option<(Key, Key)>,
    group_at_revision: &GroupEntry,
    author: &Key,
    log: &Vec<ActionRecord>,
) -> (r: Result<(), CoopError>)
    ensures
        r is Ok <==> (match previous_ref {
            Some(p) => p.0@ == group_ref.0@,
            None => true,
        }) && root_is(log@, group_ref.1@, group_ref.0@) && contributor_set(group_at_revision).contains(
            author@,
        ),
{
    validate_group_ref(group_ref, previous_ref, log)?;
    validate_group_member(group_at_revision, author)
}

/// Who may attach a link under an anchor: for an active anchor, its own
/// author; for an archived anchor, an admin of the group revision it freezes
/// (which must be given).
pub fn validate_content_link_base(
    anchor: &ContributionAnchors,
    frozen_group: &Option<GroupEntry>,
    author: &Key,
) -> (r: Result<(), CoopError>)
    ensures
        match anchor {
            ContributionAnchors::Active(a) => if a.1@ == author@ {
                r is Ok
            } else {
                r == Err::<(), CoopError>(CoopError::Unauthorized)
            },
            ContributionAnchors::Archive(_) => match frozen_group {
                None => r == Err::<(), CoopError>(CoopError::NotFound),
                Some(g) => if keys_view(g.admins@).contains(author@) {
                    r is Ok
                } else {
                    r == Err::<(), CoopError>(CoopError::Unauthorized)
                },
            },
        },
{
    if anchor.is_archive() {
        match frozen_group {
            None => Err(CoopError::NotFound),
            Some(g) => {
                if g.is_admin(author) {
                    Ok(())
                } else {
                    Err(CoopError::Unauthorized)
                }
            },
        }
    } else if same_key(anchor.author(), author) {
        Ok(())
    } else {
        Err(CoopError::Unauthorized)
    }
}

/// Who may link a group revision to an anchor: an admin of that revision,
/// and an active anchor must belong to one of the revision's contributors.
pub fn validate_anchor_link_base(group: &GroupEntry, anchor: &ContributionAnchors, author: &Key) -> (r: Result<
    (),
    CoopError,
>)
    ensures
        if !keys_view(group.admins@).contains(author@) {
            r == Err::<(), CoopError>(CoopError::Unauthorized)
        } else if *anchor is Active && !contributor_set(group).contains(anchor_author(*anchor)) {
            r == Err::<(), CoopError>(CoopError::Unauthorized)
        } else {
            r is Ok
        },
{
    if !group.is_admin(author) {
        return Err(CoopError::Unauthorized);
    }
    if !anchor.is_archive() && !group.is_contributor(anchor.author()) {
        return Err(CoopError::Unauthorized);
    }
    Ok(())
}

/// An update link's tag must read as `content_id:previous`, both hashes a
/// link may point to; where both are actions, the content id must be the
/// root of the previous revision's lineage.
pub fn validate_update_link_tag(tag: &Vec<u8>, log: &Vec<ActionRecord>) -> (r: Result<(), CoopError>)
    ensures
        match parsed_update_tag(tag@) {
            None => r == Err::<(), CoopError>(CoopError::MalformedTag),
            Some((id, rev)) => if linkable_kind(id) == Some(LinkableKind::Action) && linkable_kind(rev) == Some(
                LinkableKind::Action,
            ) {
                &&& (r is Ok <==> root_is(log@, rev, id))
                &&& (root_differs(log@, rev, id) ==> r == Err::<(), CoopError>(CoopError::LineageMismatch))
                &&& (r matches Err(e) ==> e == CoopError::LineageMismatch || traced_origin(log@, rev, Err(e)))
            } else {
                r is Ok
            },
        },
{
    let (id, rev) = parse_update_tag(tag)?;
    if is_action_hash(&id) && is_action_hash(&rev) {
        check_root(&rev, &id, log)
    } else {
        Ok(())
    }
}

/// Who may delete a contribution link: for an active anchor, its author; for
/// an archived anchor, an admin of the revision it freezes.
pub fn validate_delete_contribution_link(
    anchor: &ContributionAnchors,
    frozen_group: &Option<GroupEntry>,
    author: &Key,
) -> (r: Result<(), CoopError>)
    ensures
        match anchor {
            ContributionAnchors::Active(a) => if a.1@ == author@ {
                r is Ok
            } else {
                r == Err::<(), CoopError>(CoopError::Unauthorized)
            },
            ContributionAnchors::Archive(_) => match frozen_group {
                None => r == Err::<(), CoopError>(CoopError::NotFound),
                Some(g) => if keys_view(g.admins@).contains(author@) {
                    r is Ok
                } else {
                    r == Err::<(), CoopError>(CoopError::Unauthorized)
                },
            },
        },
{
    match anchor {
        ContributionAnchors::Active(a) => {
            if same_key(&a.1, author) {
                Ok(())
            } else {
                Err(CoopError::Unauthorized)
            }
        },
        ContributionAnchors::Archive(_) => match frozen_group {
            None => Err(CoopError::NotFound),
            Some(g) => {
                if g.is_admin(author) {
                    Ok(())
                } else {
                    Err(CoopError::Unauthorized)
                }
            },
        },
    }
}

/// A group link starts at the key of the agent that makes it.
pub fn validate_group_link(base: &Key, author: &Key) -> (r: Result<(), CoopError>)
    ensures
        r is Ok <==> base@ == author@,
        r matches Err(e) ==> e == CoopError::Unauthorized,
{
    if same_key(base, author) {
        Ok(())
    } else {
        Err(CoopError::Unauthorized)
    }
}

/// Who may delete a link that is not a contribution link: an invitation by
/// anyone, a group link by the agent that made it, a group authority link
/// never (membership changes by updating the group instead).
pub fn validate_delete_group_link(link_type: LinkTypes, link_author: &Key, author: &Key) -> (r: Result<(), CoopError>)
    ensures
        match link_type {
            LinkTypes::GroupInvite => r is Ok,
            LinkTypes::Group => if link_author@ == author@ {
                r is Ok
            } else {
                r == Err::<(), CoopError>(CoopError::Unauthorized)
            },
            _ => r == Err::<(), CoopError>(CoopError::Unauthorized),
        },
{
    match link_type {
        LinkTypes::GroupInvite => Ok(()),
        LinkTypes::Group => {
            if same_key(link_author, author) {
                Ok(())
            } else {
                Err(CoopError::Unauthorized)
            }
        },
        _ => Err(CoopError::Unauthorized),
    }
}

} // verus!
