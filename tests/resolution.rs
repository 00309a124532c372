use coop_content::catalog::{
    AnchorLinks, get_all_group_content_targets_full_trace, get_all_group_content_targets_shortcuts,
    get_group_content_latest_full_trace, get_group_content_latest_shortcuts,
    get_group_content_evolutions_shortcuts, follow_all_group_content_evolutions_shortcuts,
};
use coop_content::error::CoopError;
use coop_content::evolution::{
    trace_evolutions, latest_evolution, trace_evolutions_using_authorities,
    trace_evolutions_using_authorities_with_exceptions, select_next_update,
};
use coop_content::lineage::{trace_origin, get_root_origin};
use coop_content::membership::GroupEntry;
use coop_content::records::{ActionKind, ActionRecord};
use coop_content::shortcut::{Link, follow_update_map, shortcuts};
use coop_content::tag::update_tag;

// action hashes
const C1: &str = "uhCkkxvvFy6Oos1M2G-2cDyIIvgeczxP_nfryhUN0A5Gu2amGHJD0";
const C1A: &str = "uhCkkezYDUzqyvegcRDKTPpc8uGXeIZ2gg1NqkVtXlapF0Le6Rnn7";
const C1B: &str = "uhCkkaWi69BieO4ihbzFtlO-eus7xF4PH9ZmAYJwmAPYBRjChcmov";
const C1C: &str = "uhCEkxvvFy6Oos1M2G-2cDyIIvgeczxP_nfryhUN0A5Gu2amGHJD0";
const ALICE: &str = "uhCAkxvvFy6Oos1M2G-2cDyIIvgeczxP_nfryhUN0A5Gu2amGHJD0";
const BOB: &str = "uhCAkezYDUzqyvegcRDKTPpc8uGXeIZ2gg1NqkVtXlapF0Le6Rnn7";
const GROUP: &str = "uhCkkNotARealHashButAGroupIdForTheseTests0000000000000";
const OTHER_GROUP: &str = "uhCkkAnotherGroupIdThatNoContentHereBelongsTo000000000";

fn key(s: &str) -> Vec<u8> {
    s.as_bytes().to_vec()
}

fn create(hash: &str, author: &str, t: i64) -> ActionRecord {
    ActionRecord { hash: key(hash), author: key(author), timestamp: t, kind: ActionKind::Create, group_id: Some(key(GROUP)) }
}

fn update(hash: &str, author: &str, t: i64, of: &str) -> ActionRecord {
    ActionRecord {
        hash: key(hash),
        author: key(author),
        timestamp: t,
        kind: ActionKind::Update(key(of)),
        group_id: Some(key(GROUP)),
    }
}

fn group(admins: &[&str], members: &[&str]) -> GroupEntry {
    GroupEntry {
        admins: admins.iter().map(|a| key(a)).collect(),
        members: members.iter().map(|m| key(m)).collect(),
        deleted: None,
        published_at: 0,
        last_updated: 0,
    }
}

fn link(target: &str, tag: Vec<u8>) -> Link {
    Link { target: key(target), tag }
}

fn update_link(id: &str, prev: &str, next: &str) -> Link {
    link(next, update_tag(&key(id), &key(prev)))
}

#[test]
fn lineage_reaches_the_create_record() {
    let log = vec![create(C1, ALICE, 1), update(C1A, ALICE, 2, C1), update(C1B, BOB, 3, C1A)];
    assert_eq!(trace_origin(&key(C1B), &log), Ok(vec![key(C1B), key(C1A), key(C1)]));
    assert_eq!(get_root_origin(&key(C1B), &log), Ok(key(C1)));
    assert_eq!(get_root_origin(&key(C1), &log), Ok(key(C1)));
}

#[test]
fn lineage_errors() {
    let missing = vec![update(C1A, ALICE, 2, C1)];
    assert_eq!(get_root_origin(&key(C1A), &missing), Err(CoopError::NotFound));
    let other = vec![
        ActionRecord { hash: key(C1), author: key(ALICE), timestamp: 1, kind: ActionKind::Other, group_id: None },
        update(C1A, ALICE, 2, C1),
    ];
    assert_eq!(get_root_origin(&key(C1A), &other), Err(CoopError::LineageMismatch));
    let cycle = vec![update(C1, ALICE, 1, C1A), update(C1A, ALICE, 2, C1)];
    assert_eq!(trace_origin(&key(C1), &cycle), Err(CoopError::CycleDetected));
}

#[test]
fn earliest_concurrent_update_wins() {
    // C1 -> C1a at t=100 and C1 -> C1b at t=90; then C1b -> C1c
    let log = vec![
        create(C1, ALICE, 10),
        update(C1A, ALICE, 100, C1),
        update(C1B, BOB, 90, C1),
        update(C1C, ALICE, 120, C1B),
    ];
    let authors = vec![key(ALICE), key(BOB)];
    assert_eq!(
        trace_evolutions_using_authorities(&key(C1), &log, &authors),
        Ok(vec![key(C1), key(C1B), key(C1C)])
    );
    assert_eq!(trace_evolutions(&key(C1), &log), Ok(vec![key(C1), key(C1B), key(C1C)]));
    assert_eq!(latest_evolution(&key(C1), &log), Ok(key(C1C)));
}

#[test]
fn equal_timestamps_break_ties_by_hash() {
    // C1B's text sorts after C1A's ("uhCkka" < "uhCkke")
    let log = vec![create(C1, ALICE, 10), update(C1A, ALICE, 50, C1), update(C1B, ALICE, 50, C1)];
    assert_eq!(select_next_update(&log, &key(C1), true, &vec![], &vec![], &None), Some(2));
    assert_eq!(latest_evolution(&key(C1), &log), Ok(key(C1B)));
}

#[test]
fn unauthorized_updates_are_passed_over() {
    let log = vec![create(C1, ALICE, 10), update(C1A, BOB, 20, C1), update(C1B, ALICE, 30, C1)];
    let only_alice = vec![key(ALICE)];
    assert_eq!(
        trace_evolutions_using_authorities(&key(C1), &log, &only_alice),
        Ok(vec![key(C1), key(C1B)])
    );
    assert_eq!(
        trace_evolutions_using_authorities_with_exceptions(&key(C1), &log, &only_alice, &vec![key(C1A)]),
        Ok(vec![key(C1), key(C1A)])
    );
}

#[test]
fn full_trace_of_unknown_record_is_not_found() {
    let log = vec![create(C1, ALICE, 10)];
    assert_eq!(trace_evolutions(&key(C1A), &log), Err(CoopError::NotFound));
    assert_eq!(trace_evolutions(&key(C1), &log), Ok(vec![key(C1)]));
}

#[test]
fn shortcut_chase_and_cycle() {
    let map = vec![(key(C1), key(C1A)), (key(C1A), key(C1B))];
    assert_eq!(follow_update_map(&key(C1), &map), Ok(vec![key(C1), key(C1A), key(C1B)]));
    assert_eq!(follow_update_map(&key(C1C), &map), Ok(vec![key(C1C)]));
    let cyclic = vec![(key(C1), key(C1A)), (key(C1A), key(C1))];
    assert_eq!(follow_update_map(&key(C1), &cyclic), Err(CoopError::CycleDetected));
    let later_wins = vec![(key(C1), key(C1A)), (key(C1), key(C1B))];
    assert_eq!(follow_update_map(&key(C1), &later_wins), Ok(vec![key(C1), key(C1B)]));
}

#[test]
fn shortcuts_refuse_malformed_tags() {
    let good = vec![update_link(C1, C1, C1A), update_link(C1, C1A, C1B)];
    assert_eq!(
        shortcuts(&good),
        Ok(vec![(key(C1), key(C1), key(C1A)), (key(C1), key(C1A), key(C1B))])
    );
    let bad = vec![update_link(C1, C1, C1A), link(C1B, key("broken"))];
    assert_eq!(shortcuts(&bad), Err(CoopError::MalformedTag));
    let active = vec![AnchorLinks { creates: vec![link(C1, key("post:"))], updates: bad }];
    assert_eq!(
        get_all_group_content_targets_shortcuts(&vec![], &active, &None, &None),
        Err(CoopError::MalformedTag)
    );
    assert_eq!(get_group_content_latest_shortcuts(&key(C1), &vec![], &active), Err(CoopError::MalformedTag));
}

#[test]
fn updates_declaring_another_group_are_excluded() {
    let mut stray = update(C1A, ALICE, 20, C1);
    stray.group_id = Some(key(OTHER_GROUP));
    let mut undeclared = update(C1B, ALICE, 30, C1);
    undeclared.group_id = None;
    let log = vec![create(C1, ALICE, 10), stray, undeclared, update(C1C, ALICE, 40, C1)];
    let g = group(&[ALICE], &[]);
    assert_eq!(get_group_content_latest_full_trace(&key(C1), &key(GROUP), &g, &log, &vec![]), Ok(key(C1C)));
    assert_eq!(
        coop_content::evolution::trace_group_evolutions(&key(C1), &log, &key(OTHER_GROUP), &vec![key(ALICE)], &vec![]),
        Ok(vec![key(C1), key(C1A)])
    );
}

#[test]
fn both_resolutions_agree_on_a_linear_history() {
    let log = vec![create(C1, ALICE, 10), update(C1A, ALICE, 20, C1), update(C1B, BOB, 30, C1A)];
    let g = group(&[ALICE], &[BOB]);
    let active = vec![
        AnchorLinks { creates: vec![link(C1, key("post:"))], updates: vec![update_link(C1, C1, C1A)] },
        AnchorLinks { creates: vec![], updates: vec![update_link(C1, C1A, C1B)] },
    ];
    let archived: Vec<AnchorLinks> = vec![];
    let full = get_group_content_latest_full_trace(&key(C1), &key(GROUP), &g, &log, &archived);
    let short = get_group_content_latest_shortcuts(&key(C1), &archived, &active);
    assert_eq!(full, Ok(key(C1B)));
    assert_eq!(short, Ok(key(C1B)));
    assert_eq!(
        get_all_group_content_targets_full_trace(&key(GROUP), &g, &log, &archived, &active, &None, &None),
        Ok(vec![(key(C1), key(C1B))])
    );
    assert_eq!(
        get_all_group_content_targets_shortcuts(&archived, &active, &None, &None),
        Ok(vec![(key(C1), key(C1B))])
    );
}

#[test]
fn catalog_filters_by_type_and_base() {
    let active = vec![AnchorLinks {
        creates: vec![link(C1, key("post:blog")), link(C1A, key("note:")), link(C1B, key("post:wiki"))],
        updates: vec![],
    }];
    let archived: Vec<AnchorLinks> = vec![];
    let posts = follow_all_group_content_evolutions_shortcuts(&archived, &active, &Some(key("post")), &None).unwrap();
    let with_postcard = vec![AnchorLinks { creates: vec![link(C1, key("postcard:"))], updates: vec![] }];
    assert_eq!(
        get_all_group_content_targets_shortcuts(&archived, &with_postcard, &Some(key("post")), &None),
        Ok(vec![])
    );
    assert_eq!(posts, vec![(key(C1), vec![key(C1)]), (key(C1B), vec![key(C1B)])]);
    let blog = get_all_group_content_targets_shortcuts(&archived, &active, &Some(key("post")), &Some(key("blog")));
    assert_eq!(blog, Ok(vec![(key(C1), key(C1))]));
    assert_eq!(
        get_all_group_content_targets_shortcuts(&archived, &active, &None, &Some(key("blog"))),
        Err(CoopError::MalformedTag)
    );
}

#[test]
fn content_outside_the_group_is_not_found() {
    let active = vec![AnchorLinks { creates: vec![link(C1, key("post:"))], updates: vec![] }];
    assert_eq!(get_group_content_evolutions_shortcuts(&key(C1A), &vec![], &active), Err(CoopError::NotFound));
    assert_eq!(get_group_content_evolutions_shortcuts(&key(C1), &vec![], &active), Ok(vec![key(C1)]));
}

#[test]
fn removed_authors_earlier_edit_is_still_honoured() {
    // Bob updated C1 to C1a before being removed; the update link was copied
    // onto Bob's archived anchor. Bob's later edit C1b is not honoured.
    let log = vec![create(C1, ALICE, 10), update(C1A, BOB, 20, C1), update(C1B, BOB, 40, C1A)];
    let rev2 = group(&[ALICE], &[]);
    let archived = vec![AnchorLinks { creates: vec![], updates: vec![update_link(C1, C1, C1A)] }];
    let active = vec![AnchorLinks { creates: vec![link(C1, key("post:"))], updates: vec![] }];
    assert_eq!(get_group_content_latest_full_trace(&key(C1), &key(GROUP), &rev2, &log, &archived), Ok(key(C1A)));
    assert_eq!(get_group_content_latest_shortcuts(&key(C1), &archived, &active), Ok(key(C1A)));
}

#[test]
fn removed_authors_later_edits_are_excluded() {
    // Bob never contributed before removal; his edit after removal is ignored.
    let log = vec![create(C1, ALICE, 10), update(C1A, BOB, 50, C1)];
    let rev2 = group(&[ALICE], &[]);
    let archived = vec![AnchorLinks { creates: vec![], updates: vec![] }];
    let active = vec![AnchorLinks { creates: vec![link(C1, key("post:"))], updates: vec![] }];
    assert_eq!(
        get_all_group_content_targets_full_trace(&key(GROUP), &rev2, &log, &archived, &active, &None, &None),
        Ok(vec![(key(C1), key(C1))])
    );
    assert_eq!(
        get_all_group_content_targets_shortcuts(&archived, &active, &None, &None),
        Ok(vec![(key(C1), key(C1))])
    );
}

#[test]
fn multi_hop_edits_before_removal_are_each_honoured() {
    let log = vec![create(C1, ALICE, 10), update(C1A, BOB, 20, C1), update(C1B, BOB, 30, C1A)];
    let rev2 = group(&[ALICE], &[]);
    let archived = vec![AnchorLinks {
        creates: vec![],
        updates: vec![update_link(C1, C1, C1A), update_link(C1, C1A, C1B)],
    }];
    assert_eq!(get_group_content_latest_full_trace(&key(C1), &key(GROUP), &rev2, &log, &archived), Ok(key(C1B)));
}

#[test]
fn group_revision_follows_updates_from_the_root() {
    let log = vec![create(C1, ALICE, 1), update(C1A, ALICE, 5, C1), update(C1B, ALICE, 3, C1)];
    assert_eq!(coop_content::catalog::get_group_revision(&key(C1), &log), Ok(key(C1B)));
    assert_eq!(coop_content::catalog::get_group_revision(&key(C1A), &log), Err(CoopError::LineageMismatch));
}

#[test]
fn delete_request_selects_links_to_the_target() {
    let links = vec![(key(C1), key(C1A)), (key(C1B), key(C1C)), (key(C1C), key(C1A))];
    assert_eq!(coop_content::links::links_to_delete(&links, &key(C1A)), vec![key(C1), key(C1C)]);
    assert!(coop_content::links::links_to_delete(&links, &key(ALICE)).is_empty());
}

#[test]
fn concurrent_branches_can_resolve_differently() {
    // Two admitted updates of C1: full trace takes the earlier (C1b), the
    // shortcut table the pointer registered last (C1a).
    let log = vec![create(C1, ALICE, 10), update(C1A, ALICE, 100, C1), update(C1B, BOB, 90, C1)];
    let g = group(&[ALICE], &[BOB]);
    let active = vec![
        AnchorLinks { creates: vec![link(C1, key("post:"))], updates: vec![update_link(C1, C1, C1B)] },
        AnchorLinks { creates: vec![], updates: vec![update_link(C1, C1, C1A)] },
    ];
    assert_eq!(get_group_content_latest_full_trace(&key(C1), &key(GROUP), &g, &log, &vec![]), Ok(key(C1B)));
    assert_eq!(get_group_content_latest_shortcuts(&key(C1), &vec![], &active), Ok(key(C1A)));
}
