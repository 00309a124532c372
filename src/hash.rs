//! Telling which kind of record a hash in text form points to.

use vstd::prelude::*;
use crate::keys::Key;

verus! {

/// The 39 raw bytes that the text form of a hash decodes to, if it is one.
pub uninterp spec fn decoded_hash(text: Seq<u8>) -> Option<Seq<u8>>;

/// A character of the URL-safe base64 alphabet.
pub open spec fn url_safe_base64(c: u8) -> bool {
    (65 <= c <= 90) || (97 <= c <= 122) || (48 <= c <= 57) || c == 45 || c == 95
}

/// The shape of a hash's text: 53 characters, a `u`, then URL-safe base64.
pub open spec fn hash_text_form(text: Seq<u8>) -> bool {
    text.len() == 53 && text[0] == 117 && forall|i: int| 1 <= i < text.len() ==> url_safe_base64(#[trigger] text[i])
}

/// Relies on `holo_hash::holo_hash_decode_unchecked`: decodes the `u`-prefixed,
/// 53-character base64 form of a hash of any kind into its 39 raw bytes
/// (3 of type prefix, 32 of hash, 4 of location), checking the location bytes.
/// The decoding is `base64`'s URL-safe alphabet without padding, which takes no
/// other character. Text that is not UTF-8 has no such form.
#[verifier::external_body]
fn decode_hash(text: &Key) -> (r: Option<Vec<u8>>)
    ensures
        match r {
            Some(raw) => decoded_hash(text@) == Some(raw@) && raw@.len() == 39 && hash_text_form(text@),
            None => decoded_hash(text@) is None,
        },
{
    match std::str::from_utf8(text.as_slice()) {
        Ok(s) => holo_hash::holo_hash_decode_unchecked(s).ok(),
        Err(_) => None,
    }
}

/// The kinds of hash that a link may point to.
#[derive(Debug, Clone, Copy, PartialEq, Eq, Structural)]
pub enum LinkableKind {
    Action,
    Entry,
    External,
}

/// The kind that the three type-prefix bytes of a raw hash name, if linkable.
pub open spec fn kind_of_prefix(raw: Seq<u8>) -> Option<LinkableKind> {
    if raw.len() < 3 || raw[0] != 0x84 || raw[2] != 0x24 {
        None
    } else if raw[1] == 0x29 {
        Some(LinkableKind::Action)
    } else if raw[1] == 0x21 {
        Some(LinkableKind::Entry)
    } else if raw[1] == 0x2f {
        Some(LinkableKind::External)
    } else {
        None
    }
}

/// The kind of record that a hash in text form points to.
pub open spec fn linkable_kind(text: Seq<u8>) -> Option<LinkableKind> {
    if !hash_text_form(text) {
        None
    } else {
        match decoded_hash(text) {
            Some(raw) => kind_of_prefix(raw),
            None => None,
        }
    }
}

/// The text of a linkable hash holds no tag separator.
pub proof fn lemma_hash_text_has_no_separator(text: Seq<u8>)
    requires
        linkable_kind(text) is Some,
    ensures
        !text.contains(58),
{
    if text.contains(58) {
        let i = choose|i: int| 0 <= i < text.len() && text[i] == 58;
        assert(url_safe_base64(text[i]) || i == 0);
    }
}

/// The kind of record that `text` points to: an action, an entry or
/// something outside the log; `None` if it is no such hash.
pub fn linkable_hash_kind(text: &Key) -> (r: Option<LinkableKind>)
    ensures
        r == linkable_kind(text@),
{
    match decode_hash(text) {
        None => None,
        Some(raw) => {
            if raw[0] != 0x84 || raw[2] != 0x24 {
                None
            } else if raw[1] == 0x29 {
                Some(LinkableKind::Action)
            } else if raw[1] == 0x21 {
                Some(LinkableKind::Entry)
            } else if raw[1] == 0x2f {
                Some(LinkableKind::External)
            } else {
                None
            }
        },
    }
}

/// Whether `text` is the text form of an action hash.
pub fn is_action_hash(text: &Key) -> (r: bool)
    ensures
        r == (linkable_kind(text@) == Some(LinkableKind::Action)),
{
    match linkable_hash_kind(text) {
        Some(LinkableKind::Action) => true,
        _ => false,
    }
}

} // verus!
