use coop_content::error::CoopError;
use coop_content::hash::{linkable_hash_kind, is_action_hash, LinkableKind};
use coop_content::tag::{update_tag, creation_tag, creation_tag_filter, split_once, parse_update_tag};

const ACTION_1: &str = "uhCkkxvvFy6Oos1M2G-2cDyIIvgeczxP_nfryhUN0A5Gu2amGHJD0";
const ACTION_2: &str = "uhCkkezYDUzqyvegcRDKTPpc8uGXeIZ2gg1NqkVtXlapF0Le6Rnn7";
const ENTRY_1: &str = "uhCEkxvvFy6Oos1M2G-2cDyIIvgeczxP_nfryhUN0A5Gu2amGHJD0";
const EXTERNAL_1: &str = "uhC8kxvvFy6Oos1M2G-2cDyIIvgeczxP_nfryhUN0A5Gu2amGHJD0";
const AGENT_1: &str = "uhCAkxvvFy6Oos1M2G-2cDyIIvgeczxP_nfryhUN0A5Gu2amGHJD0";

fn key(s: &str) -> Vec<u8> {
    s.as_bytes().to_vec()
}

#[test]
fn hash_kinds_are_told_apart() {
    assert_eq!(linkable_hash_kind(&key(ACTION_1)), Some(LinkableKind::Action));
    assert_eq!(linkable_hash_kind(&key(ENTRY_1)), Some(LinkableKind::Entry));
    assert_eq!(linkable_hash_kind(&key(EXTERNAL_1)), Some(LinkableKind::External));
    assert_eq!(linkable_hash_kind(&key(AGENT_1)), None);
    assert!(is_action_hash(&key(ACTION_2)));
    assert!(!is_action_hash(&key(ENTRY_1)));
}

#[test]
fn malformed_hash_text_is_no_hash() {
    // one character changed: the location checksum no longer matches
    let mut bad = key(ACTION_1);
    bad[10] = if bad[10] == b'A' { b'B' } else { b'A' };
    assert_eq!(linkable_hash_kind(&bad), None);
    assert_eq!(linkable_hash_kind(&key("not a hash")), None);
    assert_eq!(linkable_hash_kind(&vec![0xff, 0xfe]), None);
    assert_eq!(linkable_hash_kind(&Vec::new()), None);
}

#[test]
fn update_tag_wire_format() {
    let tag = update_tag(&key(ACTION_1), &key(ACTION_2));
    assert_eq!(tag, format!("{}:{}", ACTION_1, ACTION_2).into_bytes());
}

#[test]
fn update_tag_round_trip() {
    let tag = update_tag(&key(ACTION_1), &key(ACTION_2));
    assert_eq!(split_once(&tag), Some((key(ACTION_1), key(ACTION_2))));
    assert_eq!(parse_update_tag(&tag), Ok((key(ACTION_1), key(ACTION_2))));
}

#[test]
fn creation_tag_wire_format() {
    assert_eq!(creation_tag(&key("post"), &Some(key("blog"))), key("post:blog"));
    assert_eq!(creation_tag(&key("post"), &None), key("post:"));
}

#[test]
fn creation_tag_filters() {
    assert_eq!(creation_tag_filter(&Some(key("post")), &Some(key("blog"))), Ok(key("post:blog")));
    assert_eq!(creation_tag_filter(&Some(key("post")), &None), Ok(key("post:")));
    assert_eq!(creation_tag_filter(&None, &None), Ok(Vec::new()));
    assert_eq!(creation_tag_filter(&None, &Some(key("blog"))), Err(CoopError::MalformedTag));
}

#[test]
fn split_at_first_separator_only() {
    assert_eq!(split_once(&key("a:b:c")), Some((key("a"), key("b:c"))));
    assert_eq!(split_once(&key(":")), Some((Vec::new(), Vec::new())));
    assert_eq!(split_once(&key("abc")), None);
}

#[test]
fn malformed_update_tags() {
    assert_eq!(parse_update_tag(&key(ACTION_1)), Err(CoopError::MalformedTag));
    assert_eq!(parse_update_tag(&key(&format!("{}:nothash", ACTION_1))), Err(CoopError::MalformedTag));
    assert_eq!(parse_update_tag(&key(&format!("{}:{}", AGENT_1, ACTION_1))), Err(CoopError::MalformedTag));
    assert_eq!(
        parse_update_tag(&key(&format!("{}:{}", ENTRY_1, EXTERNAL_1))),
        Ok((key(ENTRY_1), key(EXTERNAL_1)))
    );
}
