//! A group's admins and members at one revision, and how two revisions differ.

use vstd::prelude::*;
use crate::keys::{Key, keys_view, contains_key, copy_key};

verus! {

/// A group at one revision: who administers it and who may write for it.
#[derive(Clone, Debug)]
pub struct GroupEntry {
    /// Agents that may change the group itself.
    pub admins: Vec<Key>,
    /// Agents that may write content for the group.
    pub members: Vec<Key>,
    /// Whether the group has been marked as no longer in use.
    pub deleted: Option<bool>,
    /// When the group was first created.
    pub published_at: u64,
    /// When this revision was written.
    pub last_updated: u64,
}

/// The admins and members of a group, as one list (admins first).
pub open spec fn contributor_seq(g: &GroupEntry) -> Seq<Seq<u8>> {
    keys_view(g.admins@) + keys_view(g.members@)
}

/// The admins and members of a group, as a set.
pub open spec fn contributor_set(g: &GroupEntry) -> Set<Seq<u8>> {
    contributor_seq(g).to_set()
}

/// Contributors of `new` that were not contributors of `old`.
pub open spec fn added_set(old: &GroupEntry, new: &GroupEntry) -> Set<Seq<u8>> {
    contributor_set(new).difference(contributor_set(old))
}

/// Contributors of `old` that are no longer contributors of `new`.
pub open spec fn removed_set(old: &GroupEntry, new: &GroupEntry) -> Set<Seq<u8>> {
    contributor_set(old).difference(contributor_set(new))
}

/// Contributors of both revisions.
pub open spec fn retained_set(old: &GroupEntry, new: &GroupEntry) -> Set<Seq<u8>> {
    contributor_set(old).intersect(contributor_set(new))
}

/// The difference in contributors between two revisions of a group.
#[derive(Clone, Debug)]
pub struct ContributorsDiff {
    pub added: Vec<Key>,
    pub removed: Vec<Key>,
    pub intersection: Vec<Key>,
}

/// Whether a key is in `other` exactly when `keep` holds.
pub open spec fn shared_with(other: Seq<Seq<u8>>, keep: bool) -> spec_fn(Seq<u8>) -> bool {
    |k: Seq<u8>| other.contains(k) == keep
}

/// The keys of `list`, in order, that are in `other` exactly when `keep_shared` holds.
fn select_keys(list: &Vec<Key>, other: &Vec<Key>, keep_shared: bool) -> (r: Vec<Key>)
    ensures
        keys_view(r@) == keys_view(list@).filter(shared_with(keys_view(other@), keep_shared)),
        keys_view(r@).to_set() == keys_view(list@).to_set().filter(
            |k: Seq<u8>| keys_view(other@).contains(k) == keep_shared,
        ),
{
    let mut r: Vec<Key> = Vec::new();
    let mut i: usize = 0;
    while i < list.len()
        invariant
            i <= list.len(),
            keys_view(r@) == keys_view(list@).subrange(0, i as int).filter(
                shared_with(keys_view(other@), keep_shared),
            ),
            forall|k: Seq<u8>|
                keys_view(r@).contains(k) <==> (exists|j: int|
                    0 <= j < i && keys_view(list@)[j] == k && keys_view(other@).contains(k)
                        == keep_shared),
        decreases list.len() - i,
    {
        let shared = contains_key(other, &list[i]);
        proof {
            assert(keys_view(list@).subrange(0, i as int + 1) =~= keys_view(list@).subrange(0, i as int).push(
                list@[i as int]@,
            ));
            keys_view(list@).subrange(0, i as int).lemma_filter_push(
                list@[i as int]@,
                shared_with(keys_view(other@), keep_shared),
            );
        }
        if shared == keep_shared {
            let ghost before = keys_view(r@);
            r.push(copy_key(&list[i]));
            proof {
                assert(keys_view(r@) =~= before.push(list[i as int]@));
                assert(keys_view(list@)[i as int] == list[i as int]@);
                assert forall|k: Seq<u8>|
                    keys_view(r@).contains(k) <==> (exists|j: int|
                        0 <= j < i + 1 && keys_view(list@)[j] == k
                            && keys_view(other@).contains(k) == keep_shared) by {
                    if keys_view(r@).contains(k) {
                        let m = choose|m: int| 0 <= m < keys_view(r@).len() && keys_view(r@)[m] == k;
                        if m < before.len() {
                            assert(before.contains(k));
                        }
                    }
                    if exists|j: int|
                        0 <= j < i + 1 && keys_view(list@)[j] == k
                            && keys_view(other@).contains(k) == keep_shared {
                        let j = choose|j: int|
                            0 <= j < i + 1 && keys_view(list@)[j] == k
                                && keys_view(other@).contains(k) == keep_shared;
                        if j < i {
                            assert(before.contains(k));
                            let m = choose|m: int| 0 <= m < before.len() && before[m] == k;
                            assert(keys_view(r@)[m] == k);
                        } else {
                            assert(keys_view(r@)[before.len() as int] == k);
                        }
                    }
                }
            }
        } else {
            proof {
                assert(keys_view(list@)[i as int] == list[i as int]@);
            }
        }
        i += 1;
    }
    proof {
        assert(keys_view(list@).subrange(0, list.len() as int) =~= keys_view(list@));
        assert(keys_view(r@).to_set() =~= keys_view(list@).to_set().filter(
            |k: Seq<u8>| keys_view(other@).contains(k) == keep_shared,
        ));
    }
    r
}

impl GroupEntry {
    /// The admins and members of this group, admins first.
    pub fn contributors(&self) -> (r: Vec<Key>)
        ensures
            keys_view(r@) == contributor_seq(self),
    {
        let mut r: Vec<Key> = Vec::new();
        let mut i: usize = 0;
        while i < self.admins.len()
            invariant
                i <= self.admins.len(),
                keys_view(r@) == keys_view(self.admins@).subrange(0, i as int),
            decreases self.admins.len() - i,
        {
            let ghost before = keys_view(r@);
            r.push(copy_key(&self.admins[i]));
            assert(keys_view(r@) =~= before.push(self.admins@[i as int]@));
            i += 1;
            assert(keys_view(r@) =~= keys_view(self.admins@).subrange(0, i as int));
        }
        let mut j: usize = 0;
        while j < self.members.len()
            invariant
                j <= self.members.len(),
                keys_view(r@) == keys_view(self.admins@) + keys_view(self.members@).subrange(0, j as int),
            decreases self.members.len() - j,
        {
            let ghost before = keys_view(r@);
            r.push(copy_key(&self.members[j]));
            assert(keys_view(r@) =~= before.push(self.members@[j as int]@));
            j += 1;
            assert(keys_view(r@) =~= keys_view(self.admins@) + keys_view(self.members@).subrange(0, j as int));
        }
        assert(keys_view(r@) =~= contributor_seq(self));
        r
    }

    /// Whether `agent` is an admin or a member of this group.
    pub fn is_contributor(&self, agent: &Key) -> (r: bool)
        ensures
            r == contributor_set(self).contains(agent@),
    {
        let a = contains_key(&self.admins, agent);
        let m = contains_key(&self.members, agent);
        proof {
            let s = contributor_seq(self);
            if a {
                let i = choose|i: int| 0 <= i < keys_view(self.admins@).len() && keys_view(self.admins@)[i] == agent@;
                assert(s[i] == agent@);
            }
            if m {
                let i = choose|i: int| 0 <= i < keys_view(self.members@).len() && keys_view(self.members@)[i] == agent@;
                assert(s[keys_view(self.admins@).len() + i] == agent@);
            }
            if s.contains(agent@) {
                let i = choose|i: int| 0 <= i < s.len() && s[i] == agent@;
                if i < keys_view(self.admins@).len() {
                    assert(keys_view(self.admins@)[i] == agent@);
                } else {
                    assert(keys_view(self.members@)[i - keys_view(self.admins@).len()] == agent@);
                }
            }
        }
        a || m
    }

    /// Whether `agent` is an admin of this group.
    pub fn is_admin(&self, agent: &Key) -> (r: bool)
        ensures
            r == keys_view(self.admins@).contains(agent@),
    {
        contains_key(&self.admins, agent)
    }

    /// Whether `agent` is listed as a member (not an admin) of this group.
    pub fn is_member(&self, agent: &Key) -> (r: bool)
        ensures
            r == keys_view(self.members@).contains(agent@),
    {
        contains_key(&self.members, agent)
    }

    /// Who joined, who left and who stayed between this revision and `other`.
    pub fn contributors_diff(&self, other: &GroupEntry) -> (r: ContributorsDiff)
        ensures
            keys_view(r.added@) == contributor_seq(other).filter(shared_with(contributor_seq(self), false)),
            keys_view(r.removed@) == contributor_seq(self).filter(shared_with(contributor_seq(other), false)),
            keys_view(r.intersection@) == contributor_seq(self).filter(shared_with(contributor_seq(other), true)),
            keys_view(r.added@).to_set() == added_set(self, other),
            keys_view(r.removed@).to_set() == removed_set(self, other),
            keys_view(r.intersection@).to_set() == retained_set(self, other),
    {
        let old_list = self.contributors();
        let new_list = other.contributors();
        let added = select_keys(&new_list, &old_list, false);
        let removed = select_keys(&old_list, &new_list, false);
        let intersection = select_keys(&old_list, &new_list, true);
        assert(keys_view(added@).to_set() =~= added_set(self, other));
        assert(keys_view(removed@).to_set() =~= removed_set(self, other));
        assert(keys_view(intersection@).to_set() =~= retained_set(self, other));
        ContributorsDiff { added, removed, intersection }
    }
}

impl GroupEntry {
    /// The admins and members of this group, admins first (the same list as
    /// [`GroupEntry::contributors`]).
    pub fn authorities(&self) -> (r: Vec<Key>)
        ensures
            keys_view(r@) == contributor_seq(self),
    {
        self.contributors()
    }

    /// Who joined, who left and who stayed (the same lists as
    /// [`GroupEntry::contributors_diff`]).
    pub fn authorities_diff(&self, other: &GroupEntry) -> (r: ContributorsDiff)
        ensures
            keys_view(r.added@) == contributor_seq(other).filter(shared_with(contributor_seq(self), false)),
            keys_view(r.removed@) == contributor_seq(self).filter(shared_with(contributor_seq(other), false)),
            keys_view(r.intersection@) == contributor_seq(self).filter(shared_with(contributor_seq(other), true)),
    {
        self.contributors_diff(other)
    }
}

/// Between any two revisions, nobody is both added and removed, the added and
/// the retained make up the new contributors, and the removed and the retained
/// make up the old ones.
pub proof fn lemma_diff_partition(old: &GroupEntry, new: &GroupEntry)
    ensures
        added_set(old, new).intersect(removed_set(old, new)) == Set::<Seq<u8>>::empty(),
        added_set(old, new).union(retained_set(old, new)) == contributor_set(new),
        removed_set(old, new).union(retained_set(old, new)) == contributor_set(old),
{
    assert(added_set(old, new).intersect(removed_set(old, new)) =~= Set::<Seq<u8>>::empty());
    assert(added_set(old, new).union(retained_set(old, new)) =~= contributor_set(new));
    assert(removed_set(old, new).union(retained_set(old, new)) =~= contributor_set(old));
}

} // verus!
