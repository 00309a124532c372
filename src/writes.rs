//! The writes that group operations ask of the action log, decided here and
//! carried out by the caller, one atomic call each.

use vstd::prelude::*;
use crate::keys::{Key, keys_view, copy_key, same_key};
use crate::membership::{GroupEntry, contributor_seq};
use crate::anchor::{ContributionAnchors, ContributionAnchorTypes, anchor_author, anchor_group};
use crate::catalog::AnchorLinks;
use crate::shortcut::Link;
use crate::tag::{joined, creation_tag, update_tag};
use crate::validation::LinkTypes;

verus! {

/// An anchor as plain values: whether it is archived, its group id or
/// revision, and its author.
pub struct AnchorKey {
    pub archived: bool,
    pub group: Seq<u8>,
    pub author: Seq<u8>,
}

/// The identity of an anchor: two anchors with the same key are one record.
pub open spec fn anchor_key(a: ContributionAnchors) -> AnchorKey {
    AnchorKey { archived: a is Archive, group: anchor_group(a), author: anchor_author(a) }
}

/// One end of a link: a record named by its hash, or an anchor, whose hash
/// the log derives from its content.
#[derive(Clone, Debug)]
pub enum Address {
    Hash(Key),
    Anchor(ContributionAnchors),
}

/// An address as plain values.
pub enum AddressView {
    Hash(Seq<u8>),
    Anchor(AnchorKey),
}

pub open spec fn address_view(a: Address) -> AddressView {
    match a {
        Address::Hash(h) => AddressView::Hash(h@),
        Address::Anchor(x) => AddressView::Anchor(anchor_key(x)),
    }
}

/// A write asked of the log.
#[derive(Clone, Debug)]
pub enum Write {
    /// Create the anchor's record unless it is already there.
    EnsureAnchor(ContributionAnchors),
    /// Create a link from `base` to `target` with a type and a tag.
    CreateLink { base: Address, target: Address, link_type: LinkTypes, tag: Vec<u8> },
}

/// A write as plain values.
pub enum WriteView {
    EnsureAnchor(AnchorKey),
    CreateLink { base: AddressView, target: AddressView, link_type: LinkTypes, tag: Seq<u8> },
}

pub open spec fn write_view(w: Write) -> WriteView {
    match w {
        Write::EnsureAnchor(a) => WriteView::EnsureAnchor(anchor_key(a)),
        Write::CreateLink { base, target, link_type, tag } => WriteView::CreateLink {
            base: address_view(base),
            target: address_view(target),
            link_type,
            tag: tag@,
        },
    }
}

pub open spec fn writes_view(ws: Seq<Write>) -> Seq<WriteView> {
    ws.map_values(|w: Write| write_view(w))
}

/// The anchors whose records exist, each once.
#[derive(Clone, Debug)]
pub struct AnchorIndex {
    pub anchors: Vec<ContributionAnchors>,
}

impl AnchorIndex {
    /// The anchors held, as keys.
    pub open spec fn keys(&self) -> Seq<AnchorKey> {
        self.anchors@.map_values(|a: ContributionAnchors| anchor_key(a))
    }

    /// No anchor is held twice.
    pub open spec fn wf(&self) -> bool {
        self.keys().no_duplicates()
    }

    /// An index that holds no anchor.
    pub fn new() -> (r: Self)
        ensures
            r.wf(),
            r.keys() == Seq::<AnchorKey>::empty(),
    {
        let r = AnchorIndex { anchors: Vec::new() };
        assert(r.keys() =~= Seq::<AnchorKey>::empty());
        r
    }

    /// Whether the record of `anchor` exists.
    pub fn holds(&self, anchor: &ContributionAnchors) -> (r: bool)
        ensures
            r == self.keys().contains(anchor_key(*anchor)),
    {
        let mut i: usize = 0;
        while i < self.anchors.len()
            invariant
                i <= self.anchors.len(),
                forall|j: int| 0 <= j < i ==> self.keys()[j] != anchor_key(*anchor),
            decreases self.anchors.len() - i,
        {
            let a = &self.anchors[i];
            if a.is_archive() == anchor.is_archive() && same_key(a.group(), anchor.group()) && same_key(
                a.author(),
                anchor.author(),
            ) {
                assert(self.keys()[i as int] == anchor_key(*anchor));
                return true;
            }
            assert(self.keys()[i as int] != anchor_key(*anchor));
            i += 1;
        }
        false
    }

    /// Creates the record of `anchor` unless it exists; says whether it did.
    /// Racing or repeated calls for one anchor leave exactly one record.
    pub fn ensure_exists(&mut self, anchor: ContributionAnchors) -> (created: bool)
        requires
            old(self).wf(),
        ensures
            final(self).wf(),
            created == !old(self).keys().contains(anchor_key(anchor)),
            final(self).keys() == if created {
                old(self).keys().push(anchor_key(anchor))
            } else {
                old(self).keys()
            },
    {
        if self.holds(&anchor) {
            return false;
        }
        let ghost before = self.keys();
        let ghost k = anchor_key(anchor);
        self.anchors.push(anchor);
        assert(self.keys() =~= before.push(k));
        assert forall|a: int, b: int| 0 <= a < self.keys().len() && 0 <= b < self.keys().len() && a != b implies self.keys()[a]
            != self.keys()[b] by {
            if a < before.len() && b < before.len() {
            } else if a < before.len() {
                assert(before.contains(before[a]));
            } else if b < before.len() {
                assert(before.contains(before[b]));
            }
        }
        true
    }
}

/// The index after asking for the record of `k`: unchanged if it is there,
/// one more record otherwise.
pub open spec fn ensured(keys: Seq<AnchorKey>, k: AnchorKey) -> Seq<AnchorKey> {
    if keys.contains(k) {
        keys
    } else {
        keys.push(k)
    }
}

/// Asking twice for the same anchor gives one record: the second request
/// changes nothing, and exactly one record holds the anchor.
pub proof fn lemma_ensure_exists_idempotent(keys: Seq<AnchorKey>, k: AnchorKey)
    requires
        keys.no_duplicates(),
    ensures
        ensured(ensured(keys, k), k) == ensured(keys, k),
        exists|i: int|
            0 <= i < ensured(keys, k).len() && ensured(keys, k)[i] == k && forall|j: int|
                0 <= j < ensured(keys, k).len() && #[trigger] ensured(keys, k)[j] == k ==> j == i,
{
    let once = ensured(keys, k);
    if !keys.contains(k) {
        assert(once[keys.len() as int] == k);
        assert forall|j: int| 0 <= j < once.len() && #[trigger] once[j] == k implies j == keys.len() by {
            if j < keys.len() {
                assert(keys[j] == k);
            }
        }
    } else {
        let i = choose|i: int| 0 <= i < keys.len() && keys[i] == k;
        assert forall|j: int| 0 <= j < once.len() && #[trigger] once[j] == k implies j == i by {}
    }
    assert(once.contains(k)) by {
        if !keys.contains(k) {
            assert(once[keys.len() as int] == k);
        }
    }
}

/// The key of the active anchor of `author` in group `group_id`.
pub open spec fn active_key(group_id: Seq<u8>, author: Seq<u8>) -> AnchorKey {
    AnchorKey { archived: false, group: group_id, author }
}

/// The key of the archived anchor of `author`, removed at revision `rev`.
pub open spec fn archive_key(rev: Seq<u8>, author: Seq<u8>) -> AnchorKey {
    AnchorKey { archived: true, group: rev, author }
}

/// A link from a record named by its hash.
pub open spec fn link_from(base: Seq<u8>, target: AddressView, link_type: LinkTypes, tag: Seq<u8>) -> WriteView {
    WriteView::CreateLink { base: AddressView::Hash(base), target, link_type, tag }
}

/// Copies of `links` (same target, same tag) based on the anchor `to`.
pub open spec fn copied_links(to: AnchorKey, links: Seq<Link>, link_type: LinkTypes) -> Seq<WriteView> {
    links.map_values(
        |l: Link|
            WriteView::CreateLink {
                base: AddressView::Anchor(to),
                target: AddressView::Hash(l.target@),
                link_type,
                tag: l.tag@,
            },
    )
}

/// The archive links of the previous revision, carried to the new one.
pub open spec fn forwarded_archive_links(new_rev: Seq<u8>, links: Seq<Link>) -> Seq<WriteView> {
    links.map_values(
        |l: Link| link_from(new_rev, AddressView::Hash(l.target@), LinkTypes::GroupAuthArchive, l.tag@),
    )
}

/// For one removed author: their archived anchor at the new revision, its
/// link from the new revision, and copies of every link of their active anchor.
pub open spec fn archive_writes(new_rev: Seq<u8>, author: Seq<u8>, links: AnchorLinks) -> Seq<WriteView> {
    seq![
        WriteView::EnsureAnchor(archive_key(new_rev, author)),
        link_from(
            new_rev,
            AddressView::Anchor(archive_key(new_rev, author)),
            LinkTypes::GroupAuthArchive,
            Seq::empty(),
        ),
    ] + copied_links(archive_key(new_rev, author), links.creates@, LinkTypes::Contribution) + copied_links(
        archive_key(new_rev, author),
        links.updates@,
        LinkTypes::ContributionUpdate,
    )
}

/// The writes for the first `n` removed authors.
pub open spec fn removed_writes(new_rev: Seq<u8>, removed: Seq<(Key, AnchorLinks)>, n: nat) -> Seq<WriteView>
    decreases n,
{
    if n == 0 || n > removed.len() {
        Seq::empty()
    } else {
        removed_writes(new_rev, removed, (n - 1) as nat) + archive_writes(
            new_rev,
            removed[n - 1].0@,
            removed[n - 1].1,
        )
    }
}

/// The writes for the first `n` added authors: their active anchor, and its
/// link from the new revision.
pub open spec fn added_writes(group_id: Seq<u8>, new_rev: Seq<u8>, added: Seq<Seq<u8>>, n: nat) -> Seq<WriteView>
    decreases n,
{
    if n == 0 || n > added.len() {
        Seq::empty()
    } else {
        added_writes(group_id, new_rev, added, (n - 1) as nat) + seq![
            WriteView::EnsureAnchor(active_key(group_id, added[n - 1])),
            link_from(
                new_rev,
                AddressView::Anchor(active_key(group_id, added[n - 1])),
                LinkTypes::GroupAuth,
                Seq::empty(),
            ),
        ]
    }
}

/// The writes for the first `n` retained authors: a link from the new
/// revision to their existing active anchor.
pub open spec fn retained_writes(group_id: Seq<u8>, new_rev: Seq<u8>, retained: Seq<Seq<u8>>, n: nat) -> Seq<WriteView>
    decreases n,
{
    if n == 0 || n > retained.len() {
        Seq::empty()
    } else {
        retained_writes(group_id, new_rev, retained, (n - 1) as nat) + seq![
            link_from(
                new_rev,
                AddressView::Anchor(active_key(group_id, retained[n - 1])),
                LinkTypes::GroupAuth,
                Seq::empty(),
            ),
        ]
    }
}

/// Every write of a membership change, in order.
pub open spec fn migration_plan(
    group_id: Seq<u8>,
    new_rev: Seq<u8>,
    archive_links: Seq<Link>,
    removed: Seq<(Key, AnchorLinks)>,
    added: Seq<Seq<u8>>,
    retained: Seq<Seq<u8>>,
) -> Seq<WriteView> {
    forwarded_archive_links(new_rev, archive_links) + removed_writes(new_rev, removed, removed.len())
        + added_writes(group_id, new_rev, added, added.len()) + retained_writes(
        group_id,
        new_rev,
        retained,
        retained.len(),
    )
}

fn copy_anchor(a: &ContributionAnchors) -> (r: ContributionAnchors)
    ensures
        anchor_key(r) == anchor_key(*a),
{
    let t = if a.is_archive() {
        ContributionAnchorTypes::Archive
    } else {
        ContributionAnchorTypes::Active
    };
    ContributionAnchors::of_type(t, a.group(), a.author())
}

fn push_write(out: &mut Vec<Write>, w: Write)
    ensures
        writes_view(final(out)@) == writes_view(old(out)@).push(write_view(w)),
{
    let ghost before = writes_view(out@);
    out.push(w);
    assert(writes_view(out@) =~= before.push(write_view(w)));
}

fn push_copied_links(out: &mut Vec<Write>, to: &ContributionAnchors, links: &Vec<Link>, link_type: LinkTypes)
    ensures
        writes_view(final(out)@) == writes_view(old(out)@) + copied_links(anchor_key(*to), links@, link_type),
{
    let ghost start = writes_view(out@);
    let mut i: usize = 0;
    while i < links.len()
        invariant
            i <= links.len(),
            start == writes_view(old(out)@),
            writes_view(out@) == start + copied_links(anchor_key(*to), links@, link_type).subrange(0, i as int),
        decreases links.len() - i,
    {
        push_write(
            out,
            Write::CreateLink {
                base: Address::Anchor(copy_anchor(to)),
                target: Address::Hash(copy_key(&links[i].target)),
                link_type,
                tag: copy_key(&links[i].tag),
            },
        );
        i += 1;
        assert(writes_view(out@) =~= start + copied_links(anchor_key(*to), links@, link_type).subrange(0, i as int));
    }
    assert(copied_links(anchor_key(*to), links@, link_type).subrange(0, links.len() as int) =~= copied_links(
        anchor_key(*to),
        links@,
        link_type,
    ));
}

/// The writes that carry a group to a new revision with changed membership.
///
/// Archive links of the previous revision are carried forward; each removed
/// author gets an archived anchor at the new revision that receives copies of
/// every link of their active anchor (whose own links stay as they are);
/// each added author gets an active anchor, and each added or retained author
/// a link from the new revision to it. Nothing is deleted.
pub fn migrate_on_membership_change(
    group_id: &Key,
    new_rev: &Key,
    archive_links: &Vec<Link>,
    removed: &Vec<(Key, AnchorLinks)>,
    added: &Vec<Key>,
    retained: &Vec<Key>,
) -> (r: Vec<Write>)
    ensures
        writes_view(r@) == migration_plan(
            group_id@,
            new_rev@,
            archive_links@,
            removed@,
            keys_view(added@),
            keys_view(retained@),
        ),
{
    let mut out: Vec<Write> = Vec::new();
    let mut i: usize = 0;
    while i < archive_links.len()
        invariant
            i <= archive_links.len(),
            writes_view(out@) == forwarded_archive_links(new_rev@, archive_links@).subrange(0, i as int),
        decreases archive_links.len() - i,
    {
        push_write(
            &mut out,
            Write::CreateLink {
                base: Address::Hash(copy_key(new_rev)),
                target: Address::Hash(copy_key(&archive_links[i].target)),
                link_type: LinkTypes::GroupAuthArchive,
                tag: copy_key(&archive_links[i].tag),
            },
        );
        i += 1;
        assert(writes_view(out@) =~= forwarded_archive_links(new_rev@, archive_links@).subrange(0, i as int));
    }
    assert(forwarded_archive_links(new_rev@, archive_links@).subrange(0, archive_links.len() as int)
        =~= forwarded_archive_links(new_rev@, archive_links@));
    let ghost base1 = writes_view(out@);
    let mut k: usize = 0;
    while k < removed.len()
        invariant
            k <= removed.len(),
            base1 == forwarded_archive_links(new_rev@, archive_links@),
            writes_view(out@) == base1 + removed_writes(new_rev@, removed@, k as nat),
        decreases removed.len() - k,
    {
        let author = &removed[k].0;
        let links = &removed[k].1;
        let archive = ContributionAnchors::of_type(ContributionAnchorTypes::Archive, new_rev, author);
        let ghost before = writes_view(out@);
        push_write(&mut out, Write::EnsureAnchor(copy_anchor(&archive)));
        let empty: Vec<u8> = Vec::new();
        push_write(
            &mut out,
            Write::CreateLink {
                base: Address::Hash(copy_key(new_rev)),
                target: Address::Anchor(copy_anchor(&archive)),
                link_type: LinkTypes::GroupAuthArchive,
                tag: empty,
            },
        );
        push_copied_links(&mut out, &archive, &links.creates, LinkTypes::Contribution);
        push_copied_links(&mut out, &archive, &links.updates, LinkTypes::ContributionUpdate);
        assert(anchor_key(archive) == archive_key(new_rev@, removed@[k as int].0@));
        k += 1;
        assert(writes_view(out@) =~= before + archive_writes(new_rev@, removed@[k - 1].0@, removed@[k - 1].1));
        assert(writes_view(out@) =~= base1 + removed_writes(new_rev@, removed@, k as nat));
    }
    let ghost base2 = writes_view(out@);
    let mut a: usize = 0;
    while a < added.len()
        invariant
            a <= added.len(),
            base2 == forwarded_archive_links(new_rev@, archive_links@) + removed_writes(new_rev@, removed@, removed.len() as nat),
            writes_view(out@) == base2 + added_writes(group_id@, new_rev@, keys_view(added@), a as nat),
        decreases added.len() - a,
    {
        let anchor = ContributionAnchors::of_type(ContributionAnchorTypes::Active, group_id, &added[a]);
        let ghost before = writes_view(out@);
        push_write(&mut out, Write::EnsureAnchor(copy_anchor(&anchor)));
        let empty: Vec<u8> = Vec::new();
        push_write(
            &mut out,
            Write::CreateLink {
                base: Address::Hash(copy_key(new_rev)),
                target: Address::Anchor(anchor),
                link_type: LinkTypes::GroupAuth,
                tag: empty,
            },
        );
        a += 1;
        assert(keys_view(added@)[a - 1] == added@[a - 1]@);
        assert(writes_view(out@) =~= base2 + added_writes(group_id@, new_rev@, keys_view(added@), a as nat));
    }
    let ghost base3 = writes_view(out@);
    let mut t: usize = 0;
    while t < retained.len()
        invariant
            t <= retained.len(),
            base3 == forwarded_archive_links(new_rev@, archive_links@) + removed_writes(new_rev@, removed@, removed.len() as nat)
                + added_writes(group_id@, new_rev@, keys_view(added@), added.len() as nat),
            writes_view(out@) == base3 + retained_writes(group_id@, new_rev@, keys_view(retained@), t as nat),
        decreases retained.len() - t,
    {
        let anchor = ContributionAnchors::of_type(ContributionAnchorTypes::Active, group_id, &retained[t]);
        let empty: Vec<u8> = Vec::new();
        push_write(
            &mut out,
            Write::CreateLink {
                base: Address::Hash(copy_key(new_rev)),
                target: Address::Anchor(anchor),
                link_type: LinkTypes::GroupAuth,
                tag: empty,
            },
        );
        t += 1;
        assert(keys_view(retained@)[t - 1] == retained@[t - 1]@);
        assert(writes_view(out@) =~= base3 + retained_writes(group_id@, new_rev@, keys_view(retained@), t as nat));
    }
    out
}

/// Whether a write creates, or attaches a link under, the archived anchor of
/// `author` at revision `rev`.
pub open spec fn touches_archive(w: WriteView, rev: Seq<u8>, author: Seq<u8>) -> bool {
    match w {
        WriteView::EnsureAnchor(k) => k == archive_key(rev, author),
        WriteView::CreateLink { base, .. } => base == AddressView::Anchor(archive_key(rev, author)),
    }
}

/// No write of `ws` touches that archived anchor.
pub open spec fn leaves_archive(ws: Seq<WriteView>, rev: Seq<u8>, author: Seq<u8>) -> bool {
    forall|i: int| 0 <= i < ws.len() ==> !touches_archive(#[trigger] ws[i], rev, author)
}

proof fn lemma_leaves_concat(a: Seq<WriteView>, b: Seq<WriteView>, rev: Seq<u8>, author: Seq<u8>)
    requires
        leaves_archive(a, rev, author),
        leaves_archive(b, rev, author),
    ensures
        leaves_archive(a + b, rev, author),
{
    assert forall|i: int| 0 <= i < (a + b).len() implies !touches_archive(#[trigger] (a + b)[i], rev, author) by {
        if i < a.len() {
            assert((a + b)[i] == a[i]);
        } else {
            assert((a + b)[i] == b[i - a.len()]);
        }
    }
}

proof fn lemma_removed_leave(new_rev: Seq<u8>, removed: Seq<(Key, AnchorLinks)>, n: nat, rev: Seq<u8>, author: Seq<u8>)
    requires
        rev != new_rev,
    ensures
        leaves_archive(removed_writes(new_rev, removed, n), rev, author),
    decreases n,
{
    if n > 0 && n <= removed.len() {
        lemma_removed_leave(new_rev, removed, (n - 1) as nat, rev, author);
        let who = removed[n - 1].0@;
        let links = removed[n - 1].1;
        let head = seq![
            WriteView::EnsureAnchor(archive_key(new_rev, who)),
            link_from(
                new_rev,
                AddressView::Anchor(archive_key(new_rev, who)),
                LinkTypes::GroupAuthArchive,
                Seq::empty(),
            ),
        ];
        assert(leaves_archive(head, rev, author)) by {
            assert(archive_key(new_rev, who) != archive_key(rev, author));
        }
        let c = copied_links(archive_key(new_rev, who), links.creates@, LinkTypes::Contribution);
        let u = copied_links(archive_key(new_rev, who), links.updates@, LinkTypes::ContributionUpdate);
        assert(leaves_archive(c, rev, author)) by {
            assert(archive_key(new_rev, who) != archive_key(rev, author));
        }
        assert(leaves_archive(u, rev, author)) by {
            assert(archive_key(new_rev, who) != archive_key(rev, author));
        }
        lemma_leaves_concat(head, c, rev, author);
        lemma_leaves_concat(head + c, u, rev, author);
        lemma_leaves_concat(removed_writes(new_rev, removed, (n - 1) as nat), head + c + u, rev, author);
    }
}

proof fn lemma_added_leave(group_id: Seq<u8>, new_rev: Seq<u8>, added: Seq<Seq<u8>>, n: nat, rev: Seq<u8>, author: Seq<u8>)
    ensures
        leaves_archive(added_writes(group_id, new_rev, added, n), rev, author),
    decreases n,
{
    if n > 0 && n <= added.len() {
        lemma_added_leave(group_id, new_rev, added, (n - 1) as nat, rev, author);
        let tail = seq![
            WriteView::EnsureAnchor(active_key(group_id, added[n - 1])),
            link_from(
                new_rev,
                AddressView::Anchor(active_key(group_id, added[n - 1])),
                LinkTypes::GroupAuth,
                Seq::empty(),
            ),
        ];
        assert(leaves_archive(tail, rev, author));
        lemma_leaves_concat(added_writes(group_id, new_rev, added, (n - 1) as nat), tail, rev, author);
    }
}

proof fn lemma_retained_leave(
    group_id: Seq<u8>,
    new_rev: Seq<u8>,
    retained: Seq<Seq<u8>>,
    n: nat,
    rev: Seq<u8>,
    author: Seq<u8>,
)
    ensures
        leaves_archive(retained_writes(group_id, new_rev, retained, n), rev, author),
    decreases n,
{
    if n > 0 && n <= retained.len() {
        lemma_retained_leave(group_id, new_rev, retained, (n - 1) as nat, rev, author);
        let tail = seq![
            link_from(
                new_rev,
                AddressView::Anchor(active_key(group_id, retained[n - 1])),
                LinkTypes::GroupAuth,
                Seq::empty(),
            ),
        ];
        assert(leaves_archive(tail, rev, author));
        lemma_leaves_concat(retained_writes(group_id, new_rev, retained, (n - 1) as nat), tail, rev, author);
    }
}

/// A membership change never alters an archived anchor made at another
/// revision: none of its writes creates that anchor again or attaches a link
/// under it, and no write deletes anything. The archive links of the previous
/// revision are carried to the new one, so earlier archives stay reachable.
pub proof fn lemma_migration_keeps_earlier_archives(
    group_id: Seq<u8>,
    new_rev: Seq<u8>,
    archive_links: Seq<Link>,
    removed: Seq<(Key, AnchorLinks)>,
    added: Seq<Seq<u8>>,
    retained: Seq<Seq<u8>>,
    rev: Seq<u8>,
    author: Seq<u8>,
)
    requires
        rev != new_rev,
    ensures
        leaves_archive(migration_plan(group_id, new_rev, archive_links, removed, added, retained), rev, author),
        forall|i: int|
            0 <= i < archive_links.len() ==> migration_plan(
                group_id,
                new_rev,
                archive_links,
                removed,
                added,
                retained,
            ).contains(
                link_from(
                    new_rev,
                    AddressView::Hash(#[trigger] archive_links[i].target@),
                    LinkTypes::GroupAuthArchive,
                    archive_links[i].tag@,
                ),
            ),
{
    let f = forwarded_archive_links(new_rev, archive_links);
    assert(leaves_archive(f, rev, author));
    lemma_removed_leave(new_rev, removed, removed.len(), rev, author);
    lemma_added_leave(group_id, new_rev, added, added.len(), rev, author);
    lemma_retained_leave(group_id, new_rev, retained, retained.len(), rev, author);
    let r = removed_writes(new_rev, removed, removed.len());
    let a = added_writes(group_id, new_rev, added, added.len());
    let t = retained_writes(group_id, new_rev, retained, retained.len());
    lemma_leaves_concat(f, r, rev, author);
    lemma_leaves_concat(f + r, a, rev, author);
    lemma_leaves_concat(f + r + a, t, rev, author);
    let plan = migration_plan(group_id, new_rev, archive_links, removed, added, retained);
    assert forall|i: int| 0 <= i < archive_links.len() implies plan.contains(
        link_from(
            new_rev,
            AddressView::Hash(#[trigger] archive_links[i].target@),
            LinkTypes::GroupAuthArchive,
            archive_links[i].tag@,
        ),
    ) by {
        assert(plan[i] == f[i]);
    }
}

/// The writes that attach a new content item to a group on behalf of
/// `author`: their active anchor, made if absent, and a creation link from it
/// to the content, tagged with the content's type and base.
pub fn create_content_link(
    group_id: &Key,
    author: &Key,
    content_target: &Key,
    content_type: &Vec<u8>,
    content_base: &Option<Vec<u8>>,
) -> (r: Vec<Write>)
    ensures
        writes_view(r@) == seq![
            WriteView::EnsureAnchor(active_key(group_id@, author@)),
            WriteView::CreateLink {
                base: AddressView::Anchor(active_key(group_id@, author@)),
                target: AddressView::Hash(content_target@),
                link_type: LinkTypes::Contribution,
                tag: joined(
                    content_type@,
                    match content_base {
                        Some(b) => b@,
                        None => Seq::empty(),
                    },
                ),
            },
        ],
{
    let anchor = ContributionAnchors::of_type(ContributionAnchorTypes::Active, group_id, author);
    let mut out: Vec<Write> = Vec::new();
    push_write(&mut out, Write::EnsureAnchor(copy_anchor(&anchor)));
    push_write(
        &mut out,
        Write::CreateLink {
            base: Address::Anchor(anchor),
            target: Address::Hash(copy_key(content_target)),
            link_type: LinkTypes::Contribution,
            tag: creation_tag(content_type, content_base),
        },
    );
    assert(writes_view(out@) =~= seq![
        WriteView::EnsureAnchor(active_key(group_id@, author@)),
        WriteView::CreateLink {
            base: AddressView::Anchor(active_key(group_id@, author@)),
            target: AddressView::Hash(content_target@),
            link_type: LinkTypes::Contribution,
            tag: joined(
                content_type@,
                match content_base {
                    Some(b) => b@,
                    None => Seq::empty(),
                },
            ),
        },
    ]);
    out
}

/// The writes that register an update of a content item on behalf of
/// `author`: their active anchor, made if absent, and an update link from it
/// to the new revision, tagged `content_id:previous`.
pub fn create_content_update_link(
    group_id: &Key,
    author: &Key,
    content_id: &Key,
    content_prev: &Key,
    content_next: &Key,
) -> (r: Vec<Write>)
    ensures
        writes_view(r@) == seq![
            WriteView::EnsureAnchor(active_key(group_id@, author@)),
            WriteView::CreateLink {
                base: AddressView::Anchor(active_key(group_id@, author@)),
                target: AddressView::Hash(content_next@),
                link_type: LinkTypes::ContributionUpdate,
                tag: joined(content_id@, content_prev@),
            },
        ],
{
    let anchor = ContributionAnchors::of_type(ContributionAnchorTypes::Active, group_id, author);
    let mut out: Vec<Write> = Vec::new();
    push_write(&mut out, Write::EnsureAnchor(copy_anchor(&anchor)));
    push_write(
        &mut out,
        Write::CreateLink {
            base: Address::Anchor(anchor),
            target: Address::Hash(copy_key(content_next)),
            link_type: LinkTypes::ContributionUpdate,
            tag: update_tag(content_id, content_prev),
        },
    );
    assert(writes_view(out@) =~= seq![
        WriteView::EnsureAnchor(active_key(group_id@, author@)),
        WriteView::CreateLink {
            base: AddressView::Anchor(active_key(group_id@, author@)),
            target: AddressView::Hash(content_next@),
            link_type: LinkTypes::ContributionUpdate,
            tag: joined(content_id@, content_prev@),
        },
    ]);
    out
}

/// The writes for the first `n` contributors of a new group: an active
/// anchor for each, and its link from the group.
pub open spec fn founding_writes(group_id: Seq<u8>, contributors: Seq<Seq<u8>>, n: nat) -> Seq<WriteView>
    decreases n,
{
    if n == 0 || n > contributors.len() {
        Seq::empty()
    } else {
        founding_writes(group_id, contributors, (n - 1) as nat) + seq![
            WriteView::EnsureAnchor(active_key(group_id, contributors[n - 1])),
            link_from(
                group_id,
                AddressView::Anchor(active_key(group_id, contributors[n - 1])),
                LinkTypes::GroupAuth,
                Seq::empty(),
            ),
        ]
    }
}

/// The writes that follow the create record `group_id` of a new group made by
/// `creator`: an active anchor for every admin and member, linked from the
/// group, then a link from the creator to the group. A group without admins
/// is refused.
pub fn create_group(group: &GroupEntry, group_id: &Key, creator: &Key) -> (r: Result<Vec<Write>, crate::error::CoopError>)
    ensures
        group.admins.len() == 0 ==> r == Err::<Vec<Write>, crate::error::CoopError>(
            crate::error::CoopError::EmptyAdminSet,
        ),
        group.admins.len() > 0 ==> (r matches Ok(ws) && writes_view(ws@) == founding_writes(
            group_id@,
            contributor_seq(group),
            contributor_seq(group).len(),
        ) + seq![
            WriteView::CreateLink {
                base: AddressView::Hash(creator@),
                target: AddressView::Hash(group_id@),
                link_type: LinkTypes::Group,
                tag: Seq::empty(),
            },
        ]),
{
    if group.admins.len() == 0 {
        return Err(crate::error::CoopError::EmptyAdminSet);
    }
    let contributors = group.contributors();
    let mut out: Vec<Write> = Vec::new();
    let mut i: usize = 0;
    while i < contributors.len()
        invariant
            i <= contributors.len(),
            keys_view(contributors@) == contributor_seq(group),
            writes_view(out@) == founding_writes(group_id@, keys_view(contributors@), i as nat),
        decreases contributors.len() - i,
    {
        let anchor = ContributionAnchors::of_type(ContributionAnchorTypes::Active, group_id, &contributors[i]);
        let ghost before = writes_view(out@);
        push_write(&mut out, Write::EnsureAnchor(copy_anchor(&anchor)));
        let empty: Vec<u8> = Vec::new();
        push_write(
            &mut out,
            Write::CreateLink {
                base: Address::Hash(copy_key(group_id)),
                target: Address::Anchor(anchor),
                link_type: LinkTypes::GroupAuth,
                tag: empty,
            },
        );
        i += 1;
        assert(keys_view(contributors@)[i - 1] == contributors@[i - 1]@);
        assert(writes_view(out@) =~= founding_writes(group_id@, keys_view(contributors@), i as nat));
    }
    let ghost before = writes_view(out@);
    let empty: Vec<u8> = Vec::new();
    push_write(
        &mut out,
        Write::CreateLink {
            base: Address::Hash(copy_key(creator)),
            target: Address::Hash(copy_key(group_id)),
            link_type: LinkTypes::Group,
            tag: empty,
        },
    );
    Ok(out)
}

} // verus!
