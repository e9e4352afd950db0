use parity_scale_codec::{Compact, DecodeLength, Encode};
use vstd::prelude::*;

verus! {

/// The two bytes of `v`, least significant first.
pub open spec fn le_u16(v: u16) -> Seq<u8> {
    seq![v as u8, (v >> 8u16) as u8]
}

/// The four bytes of `v`, least significant first.
pub open spec fn le_u32(v: u32) -> Seq<u8> {
    seq![v as u8, (v >> 8u32) as u8, (v >> 16u32) as u8, (v >> 24u32) as u8]
}

/// The little-endian `u16` held by `b[i]` and `b[i + 1]`.
pub open spec fn u16_at(b: Seq<u8>, i: int) -> u16 {
    (b[i] as u16) | ((b[i + 1] as u16) << 8u16)
}

/// The little-endian `u32` held by `b[i]` up to `b[i + 3]`.
pub open spec fn u32_at(b: Seq<u8>, i: int) -> u32 {
    (b[i] as u32) | ((b[i + 1] as u32) << 8u32) | ((b[i + 2] as u32) << 16u32) | ((b[i
        + 3] as u32) << 24u32)
}

/// The compact form of `n`: the two low bits of the first byte give the
/// width (one, two or four bytes holding `n` shifted left by two, or a marker
/// byte followed by `n` itself in four bytes).
pub open spec fn compact_bytes(n: u32) -> Seq<u8> {
    if n <= 0x3f {
        seq![(n as u8) << 2u8]
    } else if n <= 0x3fff {
        le_u16(((n as u16) << 2u16) | 1u16)
    } else if n <= 0x3fff_ffff {
        le_u32((n << 2u32) | 2u32)
    } else {
        seq![3u8] + le_u32(n)
    }
}

/// The count that a compact prefix at the head of `b` holds, or `None` when
/// the head is truncated, not in the shortest form, or out of range.
pub open spec fn compact_prefix(b: Seq<u8>) -> Option<u32> {
    if b.len() == 0 {
        None
    } else if b[0] % 4 == 0 {
        Some((b[0] >> 2u8) as u32)
    } else if b[0] % 4 == 1 {
        if b.len() < 2 {
            None
        } else {
            let x = u16_at(b, 0) >> 2u16;
            if 0x3f < x {
                Some(x as u32)
            } else {
                None
            }
        }
    } else if b[0] % 4 == 2 {
        if b.len() < 4 {
            None
        } else {
            let x = u32_at(b, 0) >> 2u32;
            if 0x3fff < x {
                Some(x)
            } else {
                None
            }
        }
    } else if b[0] >> 2u8 == 0 && b.len() >= 5 {
        let x = u32_at(b, 1);
        if 0x3fff_ffff < x {
            Some(x)
        } else {
            None
        }
    } else {
        None
    }
}

#[verifier::external_type_specification]
#[verifier::external_body]
pub struct ExCodecError(parity_scale_codec::Error);

/// Relies on `Encode::encode` of `Compact<u32>`: the compact form of `n`.
#[verifier::external_body]
pub(crate) fn compact_encode(n: u32) -> (r: Vec<u8>)
    ensures
        r@ == compact_bytes(n),
{
    Compact(n).encode()
}

/// Relies on `Encode::encoded_size` of `Compact<u32>`: the number of bytes of
/// the compact form of `n`.
#[verifier::external_body]
pub(crate) fn compact_encoded_size(n: u32) -> (r: usize)
    ensures
        r == compact_bytes(n).len(),
{
    Compact(n).encoded_size()
}

/// Relies on `Encode::encode` of `u32`: four bytes, least significant first.
#[verifier::external_body]
pub(crate) fn encode_u32(n: u32) -> (r: Vec<u8>)
    ensures
        r@ == le_u32(n),
{
    n.encode()
}

/// Relies on `DecodeLength::len` of `Vec<_>`: decodes the compact count at
/// the head of `bytes` and nothing after it.
#[verifier::external_body]
fn codec_decode_len(bytes: &[u8]) -> (r: Result<usize, parity_scale_codec::Error>)
    ensures
        r matches Ok(n) ==> compact_prefix(bytes@) == Some(n as u32) && n <= u32::MAX,
        r is Err ==> compact_prefix(bytes@) is None,
{
    <Vec<u8> as DecodeLength>::len(bytes)
}

/// The head of some bytes does not hold a well-formed count.
#[derive(Debug)]
pub struct DecodeError;

/// Reads the element count of a length-prefixed encoding from its head,
/// without looking at the elements.
pub fn decode_len(bytes: &[u8]) -> (r: Result<usize, DecodeError>)
    ensures
        r is Ok <==> compact_prefix(bytes@) is Some,
        r matches Ok(n) ==> compact_prefix(bytes@) == Some(n as u32) && n <= u32::MAX,
{
    match codec_decode_len(bytes) {
        Ok(n) => Ok(n),
        Err(_) => Err(DecodeError),
    }
}

proof fn lemma_single_byte(n: u32)
    requires
        n <= 0x3f,
    ensures
        ((n as u8) << 2u8) % 4 == 0,
        (((n as u8) << 2u8) >> 2u8) as u32 == n,
{
    assert(n <= 0x3f ==> ((n as u8) << 2u8) % 4 == 0 && (((n as u8) << 2u8) >> 2u8) as u32 == n)
        by (bit_vector);
}

proof fn lemma_two_bytes(n: u32)
    requires
        0x3f < n <= 0x3fff,
    ensures
        ({
            let v = ((n as u16) << 2u16) | 1u16;
            &&& (v as u8) % 4 == 1
            &&& (((v as u8) as u16) | ((((v >> 8u16) as u8) as u16) << 8u16)) == v
            &&& (v >> 2u16) as u32 == n
            &&& 0x3f < (v >> 2u16)
        }),
{
    assert(0x3f < n <= 0x3fff ==> ({
        let v = ((n as u16) << 2u16) | 1u16;
        &&& (v as u8) % 4 == 1
        &&& (((v as u8) as u16) | ((((v >> 8u16) as u8) as u16) << 8u16)) == v
        &&& (v >> 2u16) as u32 == n
        &&& 0x3f < (v >> 2u16)
    })) by (bit_vector);
}

pub(crate) proof fn lemma_le_u32(v: u32)
    ensures
        ((v as u8) as u32) | ((((v >> 8u32) as u8) as u32) << 8u32) | ((((v >> 16u32) as u8) as u32)
            << 16u32) | ((((v >> 24u32) as u8) as u32) << 24u32) == v,
{
    assert(((v as u8) as u32) | ((((v >> 8u32) as u8) as u32) << 8u32) | ((((v >> 16u32) as u8)
        as u32) << 16u32) | ((((v >> 24u32) as u8) as u32) << 24u32) == v) by (bit_vector);
}

proof fn lemma_four_bytes(n: u32)
    requires
        0x3fff < n <= 0x3fff_ffff,
    ensures
        ({
            let v = (n << 2u32) | 2u32;
            &&& (v as u8) % 4 == 2
            &&& v >> 2u32 == n
        }),
{
    assert(0x3fff < n <= 0x3fff_ffff ==> ({
        let v = (n << 2u32) | 2u32;
        &&& (v as u8) % 4 == 2
        &&& v >> 2u32 == n
    })) by (bit_vector);
}

/// A count written in compact form is read back as the same count, whatever
/// bytes follow it.
pub proof fn lemma_compact_round_trip(n: u32, rest: Seq<u8>)
    ensures
        compact_prefix(compact_bytes(n) + rest) == Some(n),
{
    let b = compact_bytes(n) + rest;
    if n <= 0x3f {
        lemma_single_byte(n);
        assert(b[0] == (n as u8) << 2u8);
    } else if n <= 0x3fff {
        lemma_two_bytes(n);
        let v = ((n as u16) << 2u16) | 1u16;
        assert(b[0] == v as u8 && b[1] == (v >> 8u16) as u8);
    } else if n <= 0x3fff_ffff {
        lemma_four_bytes(n);
        let v = (n << 2u32) | 2u32;
        lemma_le_u32(v);
        assert(b[0] == v as u8 && b[1] == (v >> 8u32) as u8 && b[2] == (v >> 16u32) as u8 && b[3]
            == (v >> 24u32) as u8);
    } else {
        lemma_le_u32(n);
        assert(b[0] == 3u8 && b[1] == n as u8 && b[2] == (n >> 8u32) as u8 && b[3] == (n >> 16u32)
            as u8 && b[4] == (n >> 24u32) as u8);
        assert(3u8 % 4 == 3 && 3u8 >> 2u8 == 0) by (bit_vector);
    }
}


/// The element encodings `parts` one after another.
pub open spec fn joined(parts: Seq<Seq<u8>>) -> Seq<u8>
    decreases parts.len(),
{
    if parts.len() == 0 {
        Seq::empty()
    } else {
        joined(parts.drop_last()) + parts.last()
    }
}

/// The length-prefixed encoding of a vector whose elements encode to `parts`:
/// the compact count, then the elements in order.
pub open spec fn spec_encoded(parts: Seq<Seq<u8>>) -> Seq<u8> {
    compact_bytes(parts.len() as u32) + joined(parts)
}

/// The views of the byte vectors in `parts`.
pub open spec fn views(parts: Seq<Vec<u8>>) -> Seq<Seq<u8>> {
    parts.map_values(|p: Vec<u8>| p@)
}

/// Encodes a vector whose elements encode to `parts`: the compact count
/// followed by the element encodings in order.
pub fn encode_counted(parts: &Vec<Vec<u8>>) -> (r: Vec<u8>)
    requires
        parts@.len() <= u32::MAX,
    ensures
        r@ == spec_encoded(views(parts@)),
{
    let mut r = compact_encode(parts.len() as u32);
    let ghost head = r@;
    let mut i: usize = 0;
    while i < parts.len()
        invariant
            i <= parts@.len(),
            head == compact_bytes(parts@.len() as u32),
            r@ == head + joined(views(parts@).take(i as int)),
        decreases parts@.len() - i,
    {
        let part = &parts[i];
        let ghost before = r@;
        let mut j: usize = 0;
        while j < part.len()
            invariant
                j <= part@.len(),
                r@ == before + part@.take(j as int),
            decreases part@.len() - j,
        {
            r.push(part[j]);
            j = j + 1;
            assert(r@ =~= before + part@.take(j as int));
        }
        assert(part@.take(part@.len() as int) =~= part@);
        assert(views(parts@).take(i + 1).drop_last() =~= views(parts@).take(i as int));
        i = i + 1;
    }
    assert(views(parts@).take(parts@.len() as int) =~= views(parts@));
    r
}

/// The count at the head of an encoded vector is its number of elements,
/// whatever its elements are.
pub proof fn lemma_encoded_count(parts: Seq<Seq<u8>>)
    requires
        parts.len() <= u32::MAX,
    ensures
        compact_prefix(spec_encoded(parts)) == Some(parts.len() as u32),
{
    lemma_compact_round_trip(parts.len() as u32, joined(parts));
}

} // verus!
