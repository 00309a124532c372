use coop_content::anchor::{ContributionAnchors, ContributionAnchorTypes, ContributionsAnchorEntry, ArchivedContributionsAnchorEntry};
use coop_content::catalog::AnchorLinks;
use coop_content::error::CoopError;
use coop_content::membership::GroupEntry;
use coop_content::shortcut::Link;
use coop_content::validation::{
    LinkTypes, EntryTypes, EntryTypesUnit, validation, validate_create_entry, validate_update_entry,
    validate_group_ref, validate_group_member, validate_content_link_base, validate_anchor_link_base,
    validate_update_link_tag, validate_delete_contribution_link, validate_delete_group_link,
    validate_group_link,
};
use coop_content::records::{ActionKind, ActionRecord};
use coop_content::writes::{
    Address, AnchorIndex, Write, create_content_link, create_content_update_link, create_group,
    migrate_on_membership_change,
};

const G: &str = "uhCkkxvvFy6Oos1M2G-2cDyIIvgeczxP_nfryhUN0A5Gu2amGHJD0";
const REV2: &str = "uhCkkezYDUzqyvegcRDKTPpc8uGXeIZ2gg1NqkVtXlapF0Le6Rnn7";
const C1: &str = "uhCkkaWi69BieO4ihbzFtlO-eus7xF4PH9ZmAYJwmAPYBRjChcmov";
const ALICE: &str = "uhCAkxvvFy6Oos1M2G-2cDyIIvgeczxP_nfryhUN0A5Gu2amGHJD0";
const BOB: &str = "uhCAkezYDUzqyvegcRDKTPpc8uGXeIZ2gg1NqkVtXlapF0Le6Rnn7";
const CAROL: &str = "uhCAkaWi69BieO4ihbzFtlO-eus7xF4PH9ZmAYJwmAPYBRjChcmov";

fn key(s: &str) -> Vec<u8> {
    s.as_bytes().to_vec()
}

fn group(admins: &[&str], members: &[&str]) -> GroupEntry {
    GroupEntry {
        admins: admins.iter().map(|a| key(a)).collect(),
        members: members.iter().map(|m| key(m)).collect(),
        deleted: None,
        published_at: 0,
        last_updated: 0,
    }
}

fn active(g: &str, a: &str) -> ContributionAnchors {
    ContributionAnchors::Active(ContributionsAnchorEntry(key(g), key(a)))
}

fn archived(rev: &str, a: &str) -> ContributionAnchors {
    ContributionAnchors::Archive(ArchivedContributionsAnchorEntry::new(key(rev), key(a)))
}

fn anchor_parts(a: &ContributionAnchors) -> (bool, Vec<u8>, Vec<u8>) {
    (a.is_archive(), a.group().clone(), a.author().clone())
}

fn describe(w: &Write) -> String {
    match w {
        Write::EnsureAnchor(a) => format!("ensure {:?}", anchor_parts(a)),
        Write::CreateLink { base, target, link_type, tag } => {
            let show = |x: &Address| match x {
                Address::Hash(h) => String::from_utf8(h.clone()).unwrap(),
                Address::Anchor(a) => format!("{:?}", anchor_parts(a)),
            };
            format!("link {} -> {} {:?} {:?}", show(base), show(target), link_type, String::from_utf8(tag.clone()).unwrap())
        },
    }
}

#[test]
fn anchor_accessors() {
    let a = archived(REV2, BOB);
    assert!(a.is_archive());
    assert_eq!(a.author(), &key(BOB));
    assert_eq!(a.group(), &key(REV2));
    let b = active(G, ALICE);
    assert!(!b.is_archive());
    assert_eq!(b.group(), &key(G));
    if let ContributionAnchors::Archive(e) = &a {
        assert_eq!(e.2, "archive");
    }
    let c = ContributionAnchors::of_type(ContributionAnchorTypes::Archive, &key(REV2), &key(BOB));
    assert_eq!(anchor_parts(&c), anchor_parts(&a));
}

#[test]
fn ensure_exists_twice_makes_one_record() {
    let mut index = AnchorIndex::new();
    assert!(index.ensure_exists(active(G, ALICE)));
    assert!(!index.ensure_exists(active(G, ALICE)));
    assert_eq!(index.anchors.len(), 1);
    assert!(index.ensure_exists(archived(G, ALICE)));
    assert_eq!(index.anchors.len(), 2);
}

#[test]
fn removal_creates_archive_and_copies_links() {
    // Bob is removed at REV2; he had attached C1 and one update of it.
    let bob_links = AnchorLinks {
        creates: vec![Link { target: key(C1), tag: key("post:") }],
        updates: vec![Link { target: key(REV2), tag: key("x:y") }],
    };
    let plan = migrate_on_membership_change(
        &key(G),
        &key(REV2),
        &vec![Link { target: key(C1), tag: vec![] }],
        &vec![(key(BOB), bob_links)],
        &vec![key(CAROL)],
        &vec![key(ALICE)],
    );
    let text: Vec<String> = plan.iter().map(describe).collect();
    let archive = format!("{:?}", (true, key(REV2), key(BOB)));
    let carol = format!("{:?}", (false, key(G), key(CAROL)));
    let alice = format!("{:?}", (false, key(G), key(ALICE)));
    assert_eq!(
        text,
        vec![
            format!("link {} -> {} GroupAuthArchive \"\"", REV2, C1),
            format!("ensure {}", archive),
            format!("link {} -> {} GroupAuthArchive \"\"", REV2, archive),
            format!("link {} -> {} Contribution \"post:\"", archive, C1),
            format!("link {} -> {} ContributionUpdate \"x:y\"", archive, REV2),
            format!("ensure {}", carol),
            format!("link {} -> {} GroupAuth \"\"", REV2, carol),
            format!("link {} -> {} GroupAuth \"\"", REV2, alice),
        ]
    );
}

#[test]
fn removal_without_contributions_copies_nothing() {
    let plan = migrate_on_membership_change(
        &key(G),
        &key(REV2),
        &vec![],
        &vec![(key(BOB), AnchorLinks { creates: vec![], updates: vec![] })],
        &vec![],
        &vec![key(ALICE)],
    );
    assert_eq!(plan.len(), 3);
    let old = group(&[ALICE], &[BOB]);
    let new = group(&[ALICE], &[]);
    let d = old.contributors_diff(&new);
    assert_eq!(d.removed, vec![key(BOB)]);
    assert!(d.added.is_empty());
}

#[test]
fn content_link_plans() {
    let plan = create_content_link(&key(G), &key(ALICE), &key(C1), &key("post"), &None);
    let text: Vec<String> = plan.iter().map(describe).collect();
    let anchor = format!("{:?}", (false, key(G), key(ALICE)));
    assert_eq!(
        text,
        vec![format!("ensure {}", anchor), format!("link {} -> {} Contribution \"post:\"", anchor, C1)]
    );
    let plan = create_content_update_link(&key(G), &key(BOB), &key(C1), &key(C1), &key(REV2));
    let text: Vec<String> = plan.iter().map(describe).collect();
    let anchor = format!("{:?}", (false, key(G), key(BOB)));
    assert_eq!(text[1], format!("link {} -> {} ContributionUpdate \"{}:{}\"", anchor, REV2, C1, C1));
}

#[test]
fn group_creation_plan() {
    let g = group(&[ALICE], &[BOB]);
    let plan = create_group(&g, &key(G), &key(ALICE)).unwrap();
    assert_eq!(plan.len(), 5);
    assert_eq!(describe(&plan[4]), format!("link {} -> {} Group \"\"", ALICE, G));
    assert!(matches!(create_group(&group(&[], &[BOB]), &key(G), &key(BOB)), Err(CoopError::EmptyAdminSet)));
}

#[test]
fn group_writes_need_admins() {
    let g = group(&[ALICE], &[BOB]);
    assert_eq!(validate_create_entry(&EntryTypes::Group(group(&[ALICE], &[])), &key(ALICE)), Ok(()));
    assert_eq!(validate_create_entry(&EntryTypes::Group(group(&[ALICE], &[])), &key(BOB)), Err(CoopError::Unauthorized));
    assert_eq!(validate_update_entry(&EntryTypes::Group(group(&[BOB], &[])), &g, &key(ALICE)), Ok(()));
    assert_eq!(validate_update_entry(&EntryTypes::Group(group(&[BOB], &[])), &g, &key(BOB)), Err(CoopError::Unauthorized));
    assert_eq!(validate_update_entry(&EntryTypes::Group(group(&[], &[BOB])), &g, &key(ALICE)), Err(CoopError::EmptyAdminSet));
    assert_eq!(validation(EntryTypesUnit::Group), Err(CoopError::Unauthorized));
    assert_eq!(validation(EntryTypesUnit::ArchivedContributionsAnchor), Err(CoopError::Unauthorized));
}

#[test]
fn attaching_under_anchors() {
    let rev2 = group(&[ALICE], &[]);
    assert_eq!(validate_content_link_base(&active(G, BOB), &None, &key(BOB)), Ok(()));
    assert_eq!(validate_content_link_base(&active(G, BOB), &None, &key(ALICE)), Err(CoopError::Unauthorized));
    assert_eq!(validate_content_link_base(&archived(REV2, BOB), &Some(rev2.clone()), &key(ALICE)), Ok(()));
    assert_eq!(validate_content_link_base(&archived(REV2, BOB), &Some(rev2.clone()), &key(BOB)), Err(CoopError::Unauthorized));
    assert_eq!(validate_content_link_base(&archived(REV2, BOB), &None, &key(ALICE)), Err(CoopError::NotFound));
    let g = group(&[ALICE], &[BOB]);
    assert_eq!(validate_anchor_link_base(&g, &active(G, BOB), &key(ALICE)), Ok(()));
    assert_eq!(validate_anchor_link_base(&g, &active(G, CAROL), &key(ALICE)), Err(CoopError::Unauthorized));
    assert_eq!(validate_anchor_link_base(&g, &archived(REV2, CAROL), &key(ALICE)), Ok(()));
    assert_eq!(validate_anchor_link_base(&g, &active(G, BOB), &key(BOB)), Err(CoopError::Unauthorized));
}

#[test]
fn deleting_links() {
    let rev2 = group(&[ALICE], &[BOB]);
    assert_eq!(validate_delete_contribution_link(&active(G, BOB), &None, &key(BOB)), Ok(()));
    assert_eq!(validate_delete_contribution_link(&active(G, BOB), &None, &key(ALICE)), Err(CoopError::Unauthorized));
    assert_eq!(validate_delete_contribution_link(&archived(REV2, CAROL), &Some(rev2.clone()), &key(ALICE)), Ok(()));
    assert_eq!(
        validate_delete_contribution_link(&archived(REV2, CAROL), &Some(rev2), &key(BOB)),
        Err(CoopError::Unauthorized)
    );
    assert_eq!(validate_delete_contribution_link(&archived(REV2, CAROL), &None, &key(ALICE)), Err(CoopError::NotFound));
    assert_eq!(validate_group_link(&key(ALICE), &key(ALICE)), Ok(()));
    assert_eq!(validate_group_link(&key(BOB), &key(ALICE)), Err(CoopError::Unauthorized));
    assert_eq!(validate_delete_group_link(LinkTypes::GroupInvite, &key(ALICE), &key(BOB)), Ok(()));
    assert_eq!(validate_delete_group_link(LinkTypes::Group, &key(ALICE), &key(BOB)), Err(CoopError::Unauthorized));
    assert_eq!(validate_delete_group_link(LinkTypes::Group, &key(ALICE), &key(ALICE)), Ok(()));
    assert_eq!(validate_delete_group_link(LinkTypes::GroupAuth, &key(ALICE), &key(ALICE)), Err(CoopError::Unauthorized));
}

#[test]
fn group_ref_must_name_the_root() {
    let log = vec![
        ActionRecord { hash: key(G), author: key(ALICE), timestamp: 1, kind: ActionKind::Create, group_id: None },
        ActionRecord { hash: key(REV2), author: key(ALICE), timestamp: 2, kind: ActionKind::Update(key(G)), group_id: None },
        ActionRecord { hash: key(C1), author: key(ALICE), timestamp: 3, kind: ActionKind::Create, group_id: None },
    ];
    assert_eq!(validate_group_ref(&(key(G), key(REV2)), &None, &log), Ok(()));
    assert_eq!(validate_group_ref(&(key(REV2), key(REV2)), &None, &log), Err(CoopError::LineageMismatch));
    assert_eq!(validate_group_ref(&(key(G), key(REV2)), &Some((key(C1), key(C1))), &log), Err(CoopError::LineageMismatch));
    assert_eq!(validate_group_ref(&(key(G), key(ALICE)), &None, &log), Err(CoopError::NotFound));
    assert_eq!(validate_group_member(&group(&[ALICE], &[BOB]), &key(BOB)), Ok(()));
    assert_eq!(validate_group_member(&group(&[ALICE], &[]), &key(BOB)), Err(CoopError::Unauthorized));
    let good_tag = format!("{}:{}", G, REV2).into_bytes();
    assert_eq!(validate_update_link_tag(&good_tag, &log), Ok(()));
    let wrong_root = format!("{}:{}", C1, REV2).into_bytes();
    assert_eq!(validate_update_link_tag(&wrong_root, &log), Err(CoopError::LineageMismatch));
    assert_eq!(validate_update_link_tag(&key("nope"), &log), Err(CoopError::MalformedTag));
}
