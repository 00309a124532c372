//! Hashes and agent keys, held as the bytes of their text form.

use vstd::prelude::*;

verus! {

/// The text form of a hash or of an agent's public key (`uhCkk...`).
pub type Key = Vec<u8>;

/// The byte strings of a list of keys.
pub open spec fn keys_view(keys: Seq<Key>) -> Seq<Seq<u8>> {
    keys.map_values(|k: Key| k@)
}

/// Whether two keys are the same.
pub fn same_key(a: &Key, b: &Key) -> (r: bool)
    ensures
        r == (a@ == b@),
{
    if a.len() != b.len() {
        return false;
    }
    let mut i: usize = 0;
    while i < a.len()
        invariant
            i <= a.len(),
            a.len() == b.len(),
            forall|j: int| 0 <= j < i ==> a@[j] == b@[j],
        decreases a.len() - i,
    {
        if a[i] != b[i] {
            return false;
        }
        i += 1;
    }
    assert(a@ =~= b@);
    true
}

/// Whether `key` occurs in `keys`.
pub fn contains_key(keys: &Vec<Key>, key: &Key) -> (r: bool)
    ensures
        r == keys_view(keys@).contains(key@),
{
    let mut i: usize = 0;
    while i < keys.len()
        invariant
            i <= keys.len(),
            forall|j: int| 0 <= j < i ==> keys@[j]@ != key@,
        decreases keys.len() - i,
    {
        if same_key(&keys[i], key) {
            assert(keys_view(keys@)[i as int] == key@);
            return true;
        }
        i += 1;
    }
    false
}

/// A copy of a key.
pub fn copy_key(k: &Key) -> (r: Key)
    ensures
        r@ == k@,
{
    let mut r: Key = Vec::new();
    let mut i: usize = 0;
    while i < k.len()
        invariant
            i <= k.len(),
            r@ == k@.subrange(0, i as int),
        decreases k.len() - i,
    {
        r.push(k[i]);
        i += 1;
        assert(r@ =~= k@.subrange(0, i as int));
    }
    assert(r@ =~= k@);
    r
}

/// Appends copies of `more` to `out`.
pub fn append_keys(out: &mut Vec<Key>, more: &Vec<Key>)
    ensures
        keys_view(final(out)@) == keys_view(old(out)@) + keys_view(more@),
{
    let ghost start = keys_view(out@);
    let mut i: usize = 0;
    while i < more.len()
        invariant
            i <= more.len(),
            start == keys_view(old(out)@),
            keys_view(out@) == start + keys_view(more@).subrange(0, i as int),
        decreases more.len() - i,
    {
        let ghost before = keys_view(out@);
        out.push(copy_key(&more[i]));
        assert(keys_view(out@) =~= before.push(more@[i as int]@));
        i += 1;
        assert(keys_view(out@) =~= start + keys_view(more@).subrange(0, i as int));
    }
    assert(keys_view(more@).subrange(0, more.len() as int) =~= keys_view(more@));
}

} // verus!
