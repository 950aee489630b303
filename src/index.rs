//! Framing of segment index objects.
//!
//! ```text
//! offset  size  field
//! 0       8     magic     (little-endian u64, LIBSQL_MAGIC)
//! 8       2     version   (little-endian u16, 1)
//! 10      8     length    (little-endian u64, payload length)
//! 18      4     checksum  (little-endian u32, CRC-32 of the payload)
//! 22      N     payload   (bytes of a finite-state-transducer map)
//! ```
use vstd::arithmetic::div_mod::*;
use vstd::arithmetic::power::*;
use vstd::prelude::*;

use crate::error::{Error, IndexError};
use crate::le::{
    le_bytes, le_value, lemma_le_bytes_value, lemma_le_value_injective, push_le, read_le,
};

verus! {

/// The bytes `LIBSQL\0\0` read as a big-endian number.
pub const LIBSQL_MAGIC: u64 = 0x4c49_4253_514c_0000;

/// The version of the index object layout.
pub const INDEX_VERSION: u64 = 1;

/// The size of the index object header.
pub const INDEX_HEADER_SIZE: usize = 22;

#[verifier::external_type_specification]
#[verifier::external_body]
#[verifier::reject_recursive_types(D)]
pub struct ExFstMap<D>(fst::Map<D>);

/// The CRC-32 (IEEE) of `data`, as crc32fast computes it.
pub uninterp spec fn crc32_of(data: Seq<u8>) -> u32;

/// Whether the map library accepts `data` as the bytes of a map.
pub uninterp spec fn fst_accepts(data: Seq<u8>) -> bool;

/// The bytes that a map of the map library is made of.
pub uninterp spec fn fst_map_bytes(m: fst::Map<Vec<u8>>) -> Seq<u8>;

/// Relies on crc32fast::hash: the CRC-32 of the bytes, a function of them alone.
#[verifier::external_body]
fn crc32(data: &[u8]) -> (r: u32)
    ensures
        r == crc32_of(data@),
{
    crc32fast::hash(data)
}

/// Relies on fst::Map::new: it accepts or refuses the bytes by what they hold
/// alone, and a map that it builds keeps the bytes as its data.
#[verifier::external_body]
fn fst_map_new(data: Vec<u8>) -> (r: Option<fst::Map<Vec<u8>>>)
    ensures
        r.is_some() == fst_accepts(data@),
        r.is_some() ==> fst_map_bytes(r.unwrap()) == data@,
{
    fst::Map::new(data).ok()
}

/// The header of the index object of `payload`.
pub open spec fn index_header(payload: Seq<u8>) -> Seq<u8> {
    le_bytes(LIBSQL_MAGIC as nat, 8) + le_bytes(INDEX_VERSION as nat, 2) + le_bytes(payload.len(), 8)
        + le_bytes(crc32_of(payload) as nat, 4)
}

/// The index object that frames `payload`.
pub open spec fn index_object(payload: Seq<u8>) -> Seq<u8> {
    index_header(payload) + payload
}

/// What decoding the index object `obj` gives: its payload, or why it is refused.
pub open spec fn index_outcome(obj: Seq<u8>) -> Result<Seq<u8>, IndexError> {
    if obj.len() < 22 {
        Err(IndexError::Truncated)
    } else if le_value(obj.subrange(0, 8)) != LIBSQL_MAGIC || le_value(obj.subrange(8, 10))
        != INDEX_VERSION {
        Err(IndexError::BadHeader)
    } else if le_value(obj.subrange(10, 18)) != obj.len() - 22 {
        Err(IndexError::BadLength)
    } else if le_value(obj.subrange(18, 22)) != crc32_of(obj.subrange(22, obj.len() as int)) {
        Err(IndexError::BadChecksum)
    } else if !fst_accepts(obj.subrange(22, obj.len() as int)) {
        Err(IndexError::BadBytes)
    } else {
        Ok(obj.subrange(22, obj.len() as int))
    }
}

/// Frames `payload` as an index object: header, then the payload itself.
pub fn encode_index(payload: &[u8]) -> (r: Vec<u8>)
    ensures
        r@ == index_object(payload@),
{
    let checksum = crc32(payload);
    let mut out: Vec<u8> = Vec::new();
    push_le(&mut out, LIBSQL_MAGIC, 8);
    push_le(&mut out, INDEX_VERSION, 2);
    push_le(&mut out, payload.len() as u64, 8);
    push_le(&mut out, checksum as u64, 4);
    out.extend_from_slice(payload);
    assert(out@ =~= index_object(payload@));
    out
}

/// Checks the header of the index object `obj` and builds the map that its
/// payload holds.
pub fn decode_index(obj: Vec<u8>) -> (r: Result<fst::Map<Vec<u8>>, Error>)
    ensures
        match (r, index_outcome(obj@)) {
            (Ok(m), Ok(p)) => fst_map_bytes(m) == p,
            (Err(e), Err(ie)) => e == Error::InvalidIndex(ie),
            _ => false,
        },
{
    let mut obj = obj;
    if obj.len() < INDEX_HEADER_SIZE {
        return Err(Error::InvalidIndex(IndexError::Truncated));
    }
    let magic = read_le(obj.as_slice(), 0, 8);
    let version = read_le(obj.as_slice(), 8, 2);
    if magic != LIBSQL_MAGIC || version != INDEX_VERSION {
        return Err(Error::InvalidIndex(IndexError::BadHeader));
    }
    let len = read_le(obj.as_slice(), 10, 8);
    if len as usize != obj.len() - INDEX_HEADER_SIZE || len > usize::MAX as u64 {
        return Err(Error::InvalidIndex(IndexError::BadLength));
    }
    let checksum = read_le(obj.as_slice(), 18, 4);
    let ghost whole = obj@;
    let payload = obj.split_off(INDEX_HEADER_SIZE);
    assert(payload@ =~= whole.subrange(22, whole.len() as int));
    if crc32(payload.as_slice()) as u64 != checksum {
        return Err(Error::InvalidIndex(IndexError::BadChecksum));
    }
    match fst_map_new(payload) {
        Some(m) => Ok(m),
        None => Err(Error::InvalidIndex(IndexError::BadBytes)),
    }
}


/// Facts about the header of the index object of `payload`, field by field.
proof fn lemma_index_object_fields(payload: Seq<u8>)
    requires
        payload.len() <= u64::MAX,
    ensures
        index_object(payload).len() == 22 + payload.len(),
        le_value(index_object(payload).subrange(0, 8)) == LIBSQL_MAGIC,
        le_value(index_object(payload).subrange(8, 10)) == INDEX_VERSION,
        le_value(index_object(payload).subrange(10, 18)) == payload.len(),
        le_value(index_object(payload).subrange(18, 22)) == crc32_of(payload),
        index_object(payload).subrange(22, 22 + payload.len() as int) == payload,
{
    let obj = index_object(payload);
    lemma_le_bytes_value(LIBSQL_MAGIC as nat, 8);
    lemma_le_bytes_value(INDEX_VERSION as nat, 2);
    lemma_le_bytes_value(payload.len(), 8);
    lemma_le_bytes_value(crc32_of(payload) as nat, 4);
    assert(pow(256, 8) == 0x1_0000_0000_0000_0000int) by { reveal_with_fuel(pow, 9); }
    assert(pow(256, 4) == 0x1_0000_0000int) by { reveal_with_fuel(pow, 5); }
    assert(pow(256, 2) == 0x1_0000int) by { reveal_with_fuel(pow, 3); }
    lemma_small_mod(LIBSQL_MAGIC as nat, pow(256, 8) as nat);
    lemma_small_mod(INDEX_VERSION as nat, pow(256, 2) as nat);
    lemma_small_mod(payload.len(), pow(256, 8) as nat);
    lemma_small_mod(crc32_of(payload) as nat, pow(256, 4) as nat);
    assert(obj.subrange(0, 8) =~= le_bytes(LIBSQL_MAGIC as nat, 8));
    assert(obj.subrange(8, 10) =~= le_bytes(INDEX_VERSION as nat, 2));
    assert(obj.subrange(10, 18) =~= le_bytes(payload.len(), 8));
    assert(obj.subrange(18, 22) =~= le_bytes(crc32_of(payload) as nat, 4));
    assert(obj.subrange(22, 22 + payload.len() as int) =~= payload);
}

/// Decoding the index object that frames a payload gives the payload back,
/// whenever the map library accepts it as the bytes of a map.
pub proof fn lemma_index_round_trip(payload: Seq<u8>)
    requires
        payload.len() <= u64::MAX,
    ensures
        index_outcome(index_object(payload)) == (if fst_accepts(payload) {
            Ok::<Seq<u8>, IndexError>(payload)
        } else {
            Err(IndexError::BadBytes)
        }),
{
    lemma_index_object_fields(payload);
}

/// Changing any one byte of the header of an index object makes decoding
/// refuse the object.
pub proof fn lemma_header_corruption_detected(payload: Seq<u8>, i: int, b: u8)
    requires
        payload.len() <= u64::MAX,
        0 <= i < 22,
        b != index_object(payload)[i],
    ensures
        index_outcome(index_object(payload).update(i, b)) is Err,
{
    lemma_index_object_fields(payload);
    let obj = index_object(payload);
    let bad = obj.update(i, b);
    let (lo, hi) = if i < 8 { (0int, 8int) } else if i < 10 { (8, 10) } else if i < 18 { (10, 18) } else { (18, 22) };
    assert(bad.subrange(lo, hi)[i - lo] != obj.subrange(lo, hi)[i - lo]);
    if le_value(bad.subrange(lo, hi)) == le_value(obj.subrange(lo, hi)) {
        lemma_le_value_injective(bad.subrange(lo, hi), obj.subrange(lo, hi));
    }
    assert forall|j: int| 0 <= j < 22 && (j < lo || j >= hi) implies bad[j] == obj[j] by {}
    if lo > 0 {
        assert(bad.subrange(0, 8) =~= obj.subrange(0, 8));
    }
    if lo > 8 {
        assert(bad.subrange(8, 10) =~= obj.subrange(8, 10));
    }
    if lo > 10 {
        assert(bad.subrange(10, 18) =~= obj.subrange(10, 18));
    }
    assert(bad.subrange(22, bad.len() as int) =~= obj.subrange(22, obj.len() as int));
}

} // verus!
