//! Anchors: the records that an author's contributions to a group hang from.
//!
//! An active anchor is keyed by (group id, author) and lives as long as the
//! group; an archived anchor is keyed by (group revision, author) and freezes
//! what an author had contributed when they were removed at that revision.

use vstd::prelude::*;
use crate::keys::{Key, copy_key};

verus! {

/// The active anchor of an author in a group: `(group_id, author)`.
#[derive(Clone, Debug)]
pub struct ContributionsAnchorEntry(pub Key, pub Key);

/// The archived anchor of an author removed at a group revision:
/// `(group_revision, author, "archive")`. The literal third field tells it
/// apart from an active anchor once serialized.
#[derive(Clone, Debug)]
pub struct ArchivedContributionsAnchorEntry(pub Key, pub Key, pub String);

/// The marker carried by every archived anchor.
pub open spec fn archive_marker() -> Seq<char> {
    seq!['a', 'r', 'c', 'h', 'i', 'v', 'e']
}

impl ContributionsAnchorEntry {
    /// The author whose contributions hang from this anchor.
    pub fn author(&self) -> (r: &Key)
        ensures
            r@ == self.1@,
    {
        &self.1
    }

    /// The group id this anchor belongs to.
    pub fn group(&self) -> (r: &Key)
        ensures
            r@ == self.0@,
    {
        &self.0
    }
}

impl ArchivedContributionsAnchorEntry {
    /// The archived anchor of `agent`, removed at group revision `group_rev`.
    pub fn new(group_rev: Key, agent: Key) -> (r: Self)
        ensures
            r.0@ == group_rev@,
            r.1@ == agent@,
            r.2@ == archive_marker(),
    {
        let marker = "archive".to_owned();
        proof {
            reveal_strlit("archive");
            assert(marker@ =~= archive_marker());
        }
        ArchivedContributionsAnchorEntry(group_rev, agent, marker)
    }

    /// The author whose contributions were frozen.
    pub fn author(&self) -> (r: &Key)
        ensures
            r@ == self.1@,
    {
        &self.1
    }

    /// The group revision at which the author was removed.
    pub fn group(&self) -> (r: &Key)
        ensures
            r@ == self.0@,
    {
        &self.0
    }
}

/// An anchor of either kind.
#[derive(Clone, Debug)]
pub enum ContributionAnchors {
    Active(ContributionsAnchorEntry),
    Archive(ArchivedContributionsAnchorEntry),
}

/// Which kind of anchor is meant.
#[derive(Debug, Clone, Copy, PartialEq, Eq, Structural)]
pub enum ContributionAnchorTypes {
    Active,
    Archive,
}

/// The author of an anchor.
pub open spec fn anchor_author(a: ContributionAnchors) -> Seq<u8> {
    match a {
        ContributionAnchors::Active(e) => e.1@,
        ContributionAnchors::Archive(e) => e.1@,
    }
}

/// The group id (active) or group revision (archived) of an anchor.
pub open spec fn anchor_group(a: ContributionAnchors) -> Seq<u8> {
    match a {
        ContributionAnchors::Active(e) => e.0@,
        ContributionAnchors::Archive(e) => e.0@,
    }
}

impl ContributionAnchors {
    /// The anchor of `author` of the given kind, under a group id (active) or
    /// a group revision (archived).
    pub fn of_type(anchor_type: ContributionAnchorTypes, group: &Key, author: &Key) -> (r: Self)
        ensures
            anchor_group(r) == group@,
            anchor_author(r) == author@,
            (r is Archive) == (anchor_type == ContributionAnchorTypes::Archive),
    {
        match anchor_type {
            ContributionAnchorTypes::Active => ContributionAnchors::Active(
                ContributionsAnchorEntry(copy_key(group), copy_key(author)),
            ),
            ContributionAnchorTypes::Archive => ContributionAnchors::Archive(
                ArchivedContributionsAnchorEntry::new(copy_key(group), copy_key(author)),
            ),
        }
    }

    /// The author of this anchor.
    pub fn author(&self) -> (r: &Key)
        ensures
            r@ == anchor_author(*self),
    {
        match self {
            ContributionAnchors::Active(anchor) => &anchor.1,
            ContributionAnchors::Archive(anchor) => &anchor.1,
        }
    }

    /// The group id (active) or group revision (archived) of this anchor.
    pub fn group(&self) -> (r: &Key)
        ensures
            r@ == anchor_group(*self),
    {
        match self {
            ContributionAnchors::Active(anchor) => &anchor.0,
            ContributionAnchors::Archive(anchor) => &anchor.0,
        }
    }

    /// Whether this is an archived anchor.
    pub fn is_archive(&self) -> (r: bool)
        ensures
            r == (*self is Archive),
    {
        match self {
            ContributionAnchors::Active(_) => false,
            ContributionAnchors::Archive(_) => true,
        }
    }
}

} // verus!
