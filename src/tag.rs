//! The tags carried by contribution links, in their wire format.
//!
//! An update link is tagged `"{content_id}:{previous_revision}"`; a creation
//! link is tagged `"{content_type}:{content_base}"`, with an empty base when
//! there is none.

use vstd::prelude::*;
use crate::error::CoopError;
use crate::keys::Key;
use crate::hash::{linkable_kind, linkable_hash_kind, lemma_hash_text_has_no_separator};

verus! {

/// The separator between the two parts of a tag.
pub const SEPARATOR: u8 = 58;

/// `a`, the separator, then `b`.
pub open spec fn joined(a: Seq<u8>, b: Seq<u8>) -> Seq<u8> {
    a + seq![SEPARATOR] + b
}

/// The position of the first separator in `tag`.
pub open spec fn first_separator(tag: Seq<u8>) -> Option<int> {
    if tag.contains(SEPARATOR) {
        Some(choose|i: int| 0 <= i < tag.len() && tag[i] == SEPARATOR && forall|j: int| 0 <= j < i ==> tag[j] != SEPARATOR)
    } else {
        None
    }
}

/// `tag` cut at its first separator into what stands before and after it.
pub open spec fn split_tag(tag: Seq<u8>) -> Option<(Seq<u8>, Seq<u8>)> {
    match first_separator(tag) {
        Some(i) => Some((tag.subrange(0, i), tag.subrange(i + 1, tag.len() as int))),
        None => None,
    }
}

fn append_bytes(out: &mut Vec<u8>, more: &Vec<u8>)
    ensures
        final(out)@ == old(out)@ + more@,
{
    let mut i: usize = 0;
    while i < more.len()
        invariant
            i <= more.len(),
            out@ == old(out)@ + more@.subrange(0, i as int),
        decreases more.len() - i,
    {
        out.push(more[i]);
        i += 1;
        assert(out@ =~= old(out)@ + more@.subrange(0, i as int));
    }
    assert(more@.subrange(0, more.len() as int) =~= more@);
}

/// `a`, the separator, then `b`.
pub fn join_tag(a: &Vec<u8>, b: &Vec<u8>) -> (r: Vec<u8>)
    ensures
        r@ == joined(a@, b@),
{
    let mut r: Vec<u8> = Vec::new();
    append_bytes(&mut r, a);
    r.push(SEPARATOR);
    append_bytes(&mut r, b);
    assert(r@ =~= joined(a@, b@));
    r
}

/// The tag of an update link: the content's id, then the revision it replaces.
pub fn update_tag(content_id: &Key, previous: &Key) -> (r: Vec<u8>)
    ensures
        r@ == joined(content_id@, previous@),
{
    join_tag(content_id, previous)
}

/// The tag of a creation link: the content's type, then its base, or nothing.
pub fn creation_tag(content_type: &Vec<u8>, content_base: &Option<Vec<u8>>) -> (r: Vec<u8>)
    ensures
        r@ == joined(
            content_type@,
            match content_base {
                Some(b) => b@,
                None => Seq::empty(),
            },
        ),
{
    match content_base {
        Some(b) => join_tag(content_type, b),
        None => {
            let empty: Vec<u8> = Vec::new();
            join_tag(content_type, &empty)
        },
    }
}

/// The tag prefix that selects creation links by type and base: `type:base`
/// when both are given, `type:` when only the type is, and the empty prefix
/// (every link) when neither is. A base without a type is refused.
pub fn creation_tag_filter(content_type: &Option<Vec<u8>>, content_base: &Option<Vec<u8>>) -> (r: Result<Vec<u8>, CoopError>)
    ensures
        match (content_type, content_base) {
            (None, Some(_)) => r == Err::<Vec<u8>, CoopError>(CoopError::MalformedTag),
            (Some(t), Some(b)) => r matches Ok(p) && p@ == joined(t@, b@),
            (Some(t), None) => r matches Ok(p) && p@ == joined(t@, Seq::empty()),
            (None, None) => r matches Ok(p) && p@ == Seq::<u8>::empty(),
        },
{
    match (content_type, content_base) {
        (None, Some(_)) => Err(CoopError::MalformedTag),
        (Some(t), Some(b)) => Ok(join_tag(t, b)),
        (Some(t), None) => {
            let empty: Vec<u8> = Vec::new();
            Ok(join_tag(t, &empty))
        },
        (None, None) => Ok(Vec::new()),
    }
}

/// Cuts `tag` at its first separator.
pub fn split_once(tag: &Vec<u8>) -> (r: Option<(Vec<u8>, Vec<u8>)>)
    ensures
        match r {
            Some((a, b)) => split_tag(tag@) == Some((a@, b@)),
            None => split_tag(tag@) is None,
        },
{
    let mut i: usize = 0;
    while i < tag.len()
        invariant
            i <= tag.len(),
            forall|j: int| 0 <= j < i ==> tag@[j] != SEPARATOR,
        decreases tag.len() - i,
    {
        if tag[i] == SEPARATOR {
            proof {
                assert(tag@.contains(SEPARATOR));
                let c = choose|c: int|
                    0 <= c < tag@.len() && tag@[c] == SEPARATOR && forall|j: int| 0 <= j < c ==> tag@[j] != SEPARATOR;
                if c < i {
                } else if c > i {
                }
                assert(c == i);
            }
            let mut a: Vec<u8> = Vec::new();
            let mut k: usize = 0;
            while k < i
                invariant
                    k <= i,
                    i < tag.len(),
                    a@ == tag@.subrange(0, k as int),
                decreases i - k,
            {
                a.push(tag[k]);
                k += 1;
                assert(a@ =~= tag@.subrange(0, k as int));
            }
            let mut b: Vec<u8> = Vec::new();
            let mut m: usize = i + 1;
            while m < tag.len()
                invariant
                    i + 1 <= m <= tag.len(),
                    b@ == tag@.subrange(i + 1, m as int),
                decreases tag.len() - m,
            {
                b.push(tag[m]);
                m += 1;
                assert(b@ =~= tag@.subrange(i + 1, m as int));
            }
            return Some((a, b));
        }
        i += 1;
    }
    None
}

/// The content id and previous revision named by an update link's tag: both
/// sides of the first separator must be hashes that a link may point to.
pub open spec fn parsed_update_tag(tag: Seq<u8>) -> Option<(Seq<u8>, Seq<u8>)> {
    match split_tag(tag) {
        Some((a, b)) => if linkable_kind(a) is Some && linkable_kind(b) is Some {
            Some((a, b))
        } else {
            None
        },
        None => None,
    }
}

/// Reads an update link's tag as `(content_id, previous_revision)`.
pub fn parse_update_tag(tag: &Vec<u8>) -> (r: Result<(Key, Key), CoopError>)
    ensures
        match r {
            Ok((a, b)) => parsed_update_tag(tag@) == Some((a@, b@)),
            Err(e) => parsed_update_tag(tag@) is None && e == CoopError::MalformedTag,
        },
{
    match split_once(tag) {
        None => Err(CoopError::MalformedTag),
        Some((a, b)) => {
            if linkable_hash_kind(&a).is_some() && linkable_hash_kind(&b).is_some() {
                Ok((a, b))
            } else {
                Err(CoopError::MalformedTag)
            }
        },
    }
}

/// Cutting a joined tag at its first separator gives back both parts, when
/// the first part holds no separator (the text form of a hash never does).
pub proof fn lemma_tag_round_trip(a: Seq<u8>, b: Seq<u8>)
    requires
        !a.contains(SEPARATOR),
    ensures
        split_tag(joined(a, b)) == Some((a, b)),
{
    let t = joined(a, b);
    assert(t[a.len() as int] == SEPARATOR);
    assert(t.contains(SEPARATOR));
    let c = first_separator(t)->0;
    assert forall|j: int| 0 <= j < a.len() implies t[j] != SEPARATOR by {
        assert(t[j] == a[j]);
        if t[j] == SEPARATOR {
            assert(a.contains(SEPARATOR));
        }
    }
    if c < a.len() {
        assert(t[c] == a[c]);
    }
    assert(c == a.len());
    assert(t.subrange(0, c) =~= a);
    assert(t.subrange(c + 1, t.len() as int) =~= b);
}

/// An update tag made of two linkable hashes reads back as the same two
/// hashes.
pub proof fn lemma_update_tag_round_trip(content_id: Seq<u8>, previous: Seq<u8>)
    requires
        linkable_kind(content_id) is Some,
        linkable_kind(previous) is Some,
    ensures
        parsed_update_tag(joined(content_id, previous)) == Some((content_id, previous)),
{
    lemma_hash_text_has_no_separator(content_id);
    lemma_tag_round_trip(content_id, previous);
}

} // verus!
