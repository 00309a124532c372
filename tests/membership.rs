use coop_content::membership::GroupEntry;

fn key(s: &str) -> Vec<u8> {
    s.as_bytes().to_vec()
}

fn group(admins: &[&str], members: &[&str]) -> GroupEntry {
    GroupEntry {
        admins: admins.iter().map(|a| key(a)).collect(),
        members: members.iter().map(|m| key(m)).collect(),
        deleted: None,
        published_at: 1,
        last_updated: 1,
    }
}

fn sorted(mut v: Vec<Vec<u8>>) -> Vec<Vec<u8>> {
    v.sort();
    v.dedup();
    v
}

#[test]
fn contributors_lists_admins_then_members() {
    let g = group(&["alice"], &["bob", "carol"]);
    assert_eq!(g.contributors(), vec![key("alice"), key("bob"), key("carol")]);
}

#[test]
fn contributor_checks() {
    let g = group(&["alice"], &["bob"]);
    assert!(g.is_contributor(&key("alice")));
    assert!(g.is_contributor(&key("bob")));
    assert!(!g.is_contributor(&key("dave")));
    assert!(g.is_admin(&key("alice")));
    assert!(!g.is_admin(&key("bob")));
    assert!(g.is_member(&key("bob")));
    assert!(!g.is_member(&key("alice")));
}

#[test]
fn diff_of_removed_member() {
    let old = group(&["alice"], &["bob"]);
    let new = group(&["alice"], &[]);
    let d = old.contributors_diff(&new);
    assert!(d.added.is_empty());
    assert_eq!(d.removed, vec![key("bob")]);
    assert_eq!(d.intersection, vec![key("alice")]);
}

#[test]
fn diff_partitions_contributors() {
    let old = group(&["alice", "bob"], &["carol", "dave"]);
    let new = group(&["bob"], &["dave", "erin", "alice"]);
    let d = old.contributors_diff(&new);
    assert_eq!(sorted(d.added.clone()), vec![key("erin")]);
    assert_eq!(sorted(d.removed.clone()), vec![key("carol")]);
    assert_eq!(sorted(d.intersection.clone()), vec![key("alice"), key("bob"), key("dave")]);
    for a in &d.added {
        assert!(!d.removed.contains(a));
    }
    let mut new_side = d.added.clone();
    new_side.extend(d.intersection.clone());
    assert_eq!(sorted(new_side), sorted(new.contributors()));
    let mut old_side = d.removed.clone();
    old_side.extend(d.intersection.clone());
    assert_eq!(sorted(old_side), sorted(old.contributors()));
}

#[test]
fn diff_of_identical_groups_retains_everyone() {
    let g = group(&["alice"], &["bob", "bob"]);
    let d = g.contributors_diff(&g);
    assert!(d.added.is_empty());
    assert!(d.removed.is_empty());
    assert_eq!(sorted(d.intersection), vec![key("alice"), key("bob")]);
}

#[test]
fn diff_lists_keep_order_and_repeats() {
    let old = group(&["alice"], &["bob", "carol"]);
    let new = group(&["dave"], &["carol", "erin", "dave"]);
    let d = old.contributors_diff(&new);
    assert_eq!(d.added, vec![key("dave"), key("erin"), key("dave")]);
    assert_eq!(d.removed, vec![key("alice"), key("bob")]);
    assert_eq!(d.intersection, vec![key("carol")]);
    let e = old.authorities_diff(&new);
    assert_eq!(e.added, d.added);
    assert_eq!(old.authorities(), old.contributors());
    let same = old.contributors_diff(&old);
    assert_eq!(same.intersection, old.contributors());
}
