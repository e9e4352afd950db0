use vstd::prelude::*;

use crate::compact::{
    compact_bytes, compact_prefix, decode_len, encode_u32, joined, le_u32, spec_encoded,
    lemma_compact_round_trip, DecodeError,
};

verus! {

/// Relies on `sp_io::storage::read`: copies the head of the bytes stored at
/// `key` into `out` and returns their full length, or `None` when nothing is
/// stored there. What is stored is not known here, so nothing is promised of
/// the result. It must run inside an externalities environment.
#[verifier::external_body]
fn storage_read(key: &[u8], out: &mut [u8; 5]) -> (r: Option<u32>) {
    sp_io::storage::read(key, out, 0)
}

/// Relies on `sp_io::storage::append`: adds the encoded element `item` to the
/// length-prefixed vector stored at `key`, raising its count by one, or
/// stores a vector of that element alone where nothing is stored. It must run
/// inside an externalities environment.
#[verifier::external_body]
fn storage_append(key: &[u8], item: Vec<u8>) {
    sp_io::storage::append(key, item)
}

/// The bytes that a read of at most five bytes sees of a stored value whose
/// full length is `len`.
pub open spec fn seen_head(len: u32, head: Seq<u8>) -> Seq<u8> {
    if len < 5 {
        head.take(len as int)
    } else {
        head.take(5)
    }
}

/// The count of a stored vector, from what a read of its head reported:
/// zero where nothing is stored, `None` where the head is malformed.
pub open spec fn stored_count(read: Option<u32>, head: Seq<u8>) -> Option<u32> {
    match read {
        None => Some(0),
        Some(len) => compact_prefix(seen_head(len, head)),
    }
}

/// The count of a stored vector, from what a read of its head reported
/// (`read` is the full length of the stored bytes, `None` where nothing is
/// stored, and `head` holds their first bytes).
pub fn count_from_head(read: Option<u32>, head: &[u8; 5]) -> (r: Result<usize, DecodeError>)
    ensures
        r is Ok <==> stored_count(read, head@) is Some,
        r matches Ok(n) ==> stored_count(read, head@) == Some(n as u32) && n <= u32::MAX,
{
    match read {
        None => Ok(0),
        Some(len) => {
            let avail: usize = if len < 5 {
                len as usize
            } else {
                5
            };
            let mut seen: Vec<u8> = Vec::new();
            let mut i: usize = 0;
            while i < avail
                invariant
                    avail <= 5,
                    i <= avail,
                    avail == seen_head(len, head@).len(),
                    seen@ == head@.take(i as int),
                decreases avail - i,
            {
                seen.push(head[i]);
                i = i + 1;
                assert(seen@ =~= head@.take(i as int));
            }
            assert(seen@ =~= seen_head(len, head@));
            decode_len(seen.as_slice())
        },
    }
}

/// Whether one more element may be appended to the stored vector whose head
/// was read as `read` and `head`, under the bound `bound`: only where its
/// count is well formed and below the bound.
pub fn may_append(bound: usize, read: Option<u32>, head: &[u8; 5]) -> (r: bool)
    ensures
        r <==> (stored_count(read, head@) matches Some(n) && n < bound),
{
    match count_from_head(read, head) {
        Ok(n) => n < bound,
        Err(_) => false,
    }
}

/// Appends the encoded element `item` to the vector stored at `key` if its
/// count, read from the head of the stored bytes alone, is below `bound`.
/// Otherwise, and where the stored head is malformed, nothing is written and
/// the call fails.
pub fn try_append_at(bound: usize, key: &[u8], item: Vec<u8>) -> (r: Result<(), ()>)
    ensures
        bound == 0 ==> r is Err,
{
    let mut head: [u8; 5] = [0u8; 5];
    let read = storage_read(key, &mut head);
    if may_append(bound, read, &head) {
        storage_append(key, item);
        Ok(())
    } else {
        Err(())
    }
}

/// Reads the count of the vector stored at `key`: `Ok(None)` where nothing
/// is stored, an error where its head is malformed.
pub fn stored_len(key: &[u8]) -> (r: Result<Option<usize>, DecodeError>)
    ensures
        r matches Ok(Some(n)) ==> n <= u32::MAX,
{
    let mut head: [u8; 5] = [0u8; 5];
    let read = storage_read(key, &mut head);
    match read {
        None => Ok(None),
        Some(_) => match count_from_head(read, &head) {
            Ok(n) => Ok(Some(n)),
            Err(e) => Err(e),
        },
    }
}


/// Reading the head of the stored encoding of a vector gives its number of
/// elements: the count is found in the first five bytes, whatever the
/// elements are.
pub proof fn lemma_count_from_stored_head(parts: Seq<Seq<u8>>, head: Seq<u8>)
    requires
        parts.len() <= u32::MAX,
        spec_encoded(parts).len() <= u32::MAX,
        head.len() == 5,
        forall|i: int| 0 <= i < 5 && i < spec_encoded(parts).len() ==> head[i] == spec_encoded(parts)[i],
    ensures
        stored_count(Some(spec_encoded(parts).len() as u32), head) == Some(parts.len() as u32),
{
    let n = parts.len() as u32;
    let bytes = spec_encoded(parts);
    let len = bytes.len() as u32;
    let c = compact_bytes(n);
    assert(c.len() <= 5);
    let seen = seen_head(len, head);
    let k = seen.len() as int;
    assert(c.len() <= k);
    let rest = joined(parts).take(k - c.len());
    assert(seen =~= c + rest);
    lemma_compact_round_trip(n, rest);
}

/// `a` followed by `b`.
fn concat(a: &[u8], b: &[u8]) -> (r: Vec<u8>)
    ensures
        r@ == a@ + b@,
{
    let mut r: Vec<u8> = Vec::new();
    let mut i: usize = 0;
    while i < a.len()
        invariant
            i <= a@.len(),
            r@ == a@.take(i as int),
        decreases a@.len() - i,
    {
        r.push(a[i]);
        i = i + 1;
        assert(r@ =~= a@.take(i as int));
    }
    let mut j: usize = 0;
    while j < b.len()
        invariant
            j <= b@.len(),
            r@ == a@ + b@.take(j as int),
        decreases b@.len() - j,
    {
        r.push(b[j]);
        j = j + 1;
        assert(r@ =~= a@ + b@.take(j as int));
    }
    assert(b@.take(b@.len() as int) =~= b@);
    r
}

/// The store key of an entry of a map under `prefix`: the prefix followed by
/// the encoded key.
pub open spec fn spec_map_key(prefix: Seq<u8>, key: u32) -> Seq<u8> {
    prefix + le_u32(key)
}

/// The store key of an entry of a double map under `prefix`: the prefix
/// followed by the two encoded keys.
pub open spec fn spec_double_map_key(prefix: Seq<u8>, key1: u32, key2: u32) -> Seq<u8> {
    prefix + le_u32(key1) + le_u32(key2)
}

/// The store key of the entry at `key` of the map under `prefix`.
pub fn map_key(prefix: &[u8], key: u32) -> (r: Vec<u8>)
    ensures
        r@ == spec_map_key(prefix@, key),
{
    let k = encode_u32(key);
    concat(prefix, k.as_slice())
}

/// The store key of the entry at `key1`, `key2` of the double map under
/// `prefix`.
pub fn double_map_key(prefix: &[u8], key1: u32, key2: u32) -> (r: Vec<u8>)
    ensures
        r@ == spec_double_map_key(prefix@, key1, key2),
{
    let first = map_key(prefix, key1);
    let k = encode_u32(key2);
    concat(first.as_slice(), k.as_slice())
}

/// Appends the encoded element `item` to the bounded vector, of bound `S`,
/// stored as a single value under `prefix`; fails without writing when it
/// is full or its stored head is malformed.
pub fn try_append_value<const S: u32>(prefix: &[u8], item: Vec<u8>) -> (r: Result<(), ()>)
    ensures
        S == 0 ==> r is Err,
{
    try_append_at(S as usize, prefix, item)
}

/// Appends the encoded element `item` to the bounded vector, of bound `S`,
/// stored at `key` of the map under `prefix`; fails without writing when it
/// is full or its stored head is malformed.
pub fn try_append_map<const S: u32>(prefix: &[u8], key: u32, item: Vec<u8>) -> (r: Result<(), ()>)
    ensures
        S == 0 ==> r is Err,
{
    let k = map_key(prefix, key);
    try_append_at(S as usize, k.as_slice(), item)
}

/// Appends the encoded element `item` to the bounded vector, of bound `S`,
/// stored at `key1`, `key2` of the double map under `prefix`; fails without
/// writing when it is full or its stored head is malformed.
pub fn try_append_double_map<const S: u32>(
    prefix: &[u8],
    key1: u32,
    key2: u32,
    item: Vec<u8>,
) -> (r: Result<(), ()>)
    ensures
        S == 0 ==> r is Err,
{
    let k = double_map_key(prefix, key1, key2);
    try_append_at(S as usize, k.as_slice(), item)
}

proof fn lemma_le_u32_injective(a: u32, b: u32)
    requires
        le_u32(a) == le_u32(b),
    ensures
        a == b,
{
    crate::compact::lemma_le_u32(a);
    crate::compact::lemma_le_u32(b);
    assert(le_u32(a)[0] == le_u32(b)[0] && le_u32(a)[1] == le_u32(b)[1] && le_u32(a)[2] == le_u32(
        b,
    )[2] && le_u32(a)[3] == le_u32(b)[3]);
}

/// Two different keys of one map address two different store entries, so an
/// append at one never touches the other.
pub proof fn lemma_map_keys_distinct(prefix: Seq<u8>, key1: u32, key2: u32)
    requires
        key1 != key2,
    ensures
        spec_map_key(prefix, key1) != spec_map_key(prefix, key2),
{
    if spec_map_key(prefix, key1) == spec_map_key(prefix, key2) {
        let n = prefix.len() as int;
        assert(le_u32(key1) =~= spec_map_key(prefix, key1).subrange(n, n + 4));
        assert(le_u32(key2) =~= spec_map_key(prefix, key2).subrange(n, n + 4));
        lemma_le_u32_injective(key1, key2);
    }
}

/// Two different pairs of keys of one double map address two different store
/// entries, so an append at one never touches the other.
pub proof fn lemma_double_map_keys_distinct(prefix: Seq<u8>, a1: u32, a2: u32, b1: u32, b2: u32)
    requires
        a1 != b1 || a2 != b2,
    ensures
        spec_double_map_key(prefix, a1, a2) != spec_double_map_key(prefix, b1, b2),
{
    if spec_double_map_key(prefix, a1, a2) == spec_double_map_key(prefix, b1, b2) {
        let n = prefix.len() as int;
        let ka = spec_double_map_key(prefix, a1, a2);
        let kb = spec_double_map_key(prefix, b1, b2);
        assert(le_u32(a1) =~= ka.subrange(n, n + 4));
        assert(le_u32(b1) =~= kb.subrange(n, n + 4));
        assert(le_u32(a2) =~= ka.subrange(n + 4, n + 8));
        assert(le_u32(b2) =~= kb.subrange(n + 4, n + 8));
        lemma_le_u32_injective(a1, b1);
        lemma_le_u32_injective(a2, b2);
    }
}

} // verus!
