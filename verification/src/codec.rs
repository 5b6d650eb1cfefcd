//! The versioned binary codec for `__consumer_offsets` key/value records.
//!
//! All multi-byte integers on the wire are big-endian. Strings are
//! length-prefixed: an `int16` length followed by that many UTF-8 bytes.
//! Decoding is pure: it never mutates its input and reports a malformed
//! record instead of panicking when the buffer is shorter than the schema
//! requires, when a length prefix is negative, or when string bytes are not
//! valid UTF-8.

use crate::records::assignments_view;
use crate::records::partitions_view;
use crate::records::LagError;
use crate::records::MemberAssignment;
use crate::records::OffsetRecord;
use vstd::prelude::*;
use vstd::slice::slice_subrange;
use vstd::utf8::decode_utf8;
use vstd::utf8::encode_utf8;
use vstd::utf8::valid_utf8;

verus! {

// ---------------------------------------------------------------------------
// Big-endian integers
// ---------------------------------------------------------------------------

/// The `u16` held by two big-endian bytes.
pub open spec fn be_u16(b0: u8, b1: u8) -> u16 {
    ((b0 as u16) << 8) | (b1 as u16)
}

/// The `u32` held by four big-endian bytes.
pub open spec fn be_u32(b0: u8, b1: u8, b2: u8, b3: u8) -> u32 {
    ((b0 as u32) << 24) | ((b1 as u32) << 16) | ((b2 as u32) << 8) | (b3 as u32)
}

/// The `u64` held by eight big-endian bytes.
pub open spec fn be_u64(b0: u8, b1: u8, b2: u8, b3: u8, b4: u8, b5: u8, b6: u8, b7: u8) -> u64 {
    ((b0 as u64) << 56) | ((b1 as u64) << 48) | ((b2 as u64) << 40) | ((b3 as u64) << 32)
        | ((b4 as u64) << 24) | ((b5 as u64) << 16) | ((b6 as u64) << 8) | (b7 as u64)
}

/// The signed (two's complement) reading of a `u16` bit pattern.
pub open spec fn i16_val(u: u16) -> int {
    if u < 0x8000 {
        u as int
    } else {
        u - 0x10000
    }
}

/// The signed (two's complement) reading of a `u32` bit pattern.
pub open spec fn i32_val(u: u32) -> int {
    if u < 0x8000_0000 {
        u as int
    } else {
        u - 0x1_0000_0000
    }
}

/// The signed (two's complement) reading of a `u64` bit pattern.
pub open spec fn i64_val(u: u64) -> int {
    if u < 0x8000_0000_0000_0000 {
        u as int
    } else {
        u - 0x1_0000_0000_0000_0000
    }
}

/// The `u16` bit pattern of an `i16` value.
pub open spec fn u16_of_i16(v: i16) -> u16 {
    if v >= 0 {
        v as u16
    } else {
        (v + 0x10000) as u16
    }
}

/// The `u32` bit pattern of an `i32` value.
pub open spec fn u32_of_i32(v: i32) -> u32 {
    if v >= 0 {
        v as u32
    } else {
        (v + 0x1_0000_0000) as u32
    }
}

/// The `u64` bit pattern of an `i64` value.
pub open spec fn u64_of_i64(v: i64) -> u64 {
    if v >= 0 {
        v as u64
    } else {
        (v + 0x1_0000_0000_0000_0000) as u64
    }
}

/// The two big-endian bytes of a `u16`.
pub open spec fn be_bytes2(v: u16) -> Seq<u8> {
    seq![(v >> 8) as u8, (v & 0xff) as u8]
}

/// The four big-endian bytes of a `u32`.
pub open spec fn be_bytes4(v: u32) -> Seq<u8> {
    seq![
        (v >> 24) as u8,
        ((v >> 16) & 0xff) as u8,
        ((v >> 8) & 0xff) as u8,
        (v & 0xff) as u8,
    ]
}

/// The eight big-endian bytes of a `u64`.
pub open spec fn be_bytes8(v: u64) -> Seq<u8> {
    seq![
        (v >> 56) as u8,
        ((v >> 48) & 0xff) as u8,
        ((v >> 40) & 0xff) as u8,
        ((v >> 32) & 0xff) as u8,
        ((v >> 24) & 0xff) as u8,
        ((v >> 16) & 0xff) as u8,
        ((v >> 8) & 0xff) as u8,
        (v & 0xff) as u8,
    ]
}

/// Reading back the two big-endian bytes of a `u16` recovers it.
pub proof fn lemma_be_u16_round_trip(v: u16)
    ensures
        be_u16(be_bytes2(v)[0], be_bytes2(v)[1]) == v,
{
    assert((((((v >> 8) as u8) as u16) << 8) | (((v & 0xff) as u8) as u16)) == v) by (bit_vector);
}

/// Reading back the four big-endian bytes of a `u32` recovers it.
pub proof fn lemma_be_u32_round_trip(v: u32)
    ensures
        be_u32(be_bytes4(v)[0], be_bytes4(v)[1], be_bytes4(v)[2], be_bytes4(v)[3]) == v,
{
    assert(((((v >> 24) as u8) as u32) << 24) | (((((v >> 16) & 0xff) as u8) as u32) << 16)
        | (((((v >> 8) & 0xff) as u8) as u32) << 8) | (((v & 0xff) as u8) as u32) == v)
        by (bit_vector);
}

/// Reading back the eight big-endian bytes of a `u64` recovers it.
pub proof fn lemma_be_u64_round_trip(v: u64)
    ensures
        be_u64(
            be_bytes8(v)[0],
            be_bytes8(v)[1],
            be_bytes8(v)[2],
            be_bytes8(v)[3],
            be_bytes8(v)[4],
            be_bytes8(v)[5],
            be_bytes8(v)[6],
            be_bytes8(v)[7],
        ) == v,
{
    assert(((((v >> 56) as u8) as u64) << 56) | (((((v >> 48) & 0xff) as u8) as u64) << 48)
        | (((((v >> 40) & 0xff) as u8) as u64) << 40) | (((((v >> 32) & 0xff) as u8) as u64) << 32)
        | (((((v >> 24) & 0xff) as u8) as u64) << 24) | (((((v >> 16) & 0xff) as u8) as u64) << 16)
        | (((((v >> 8) & 0xff) as u8) as u64) << 8) | (((v & 0xff) as u8) as u64) == v)
        by (bit_vector);
}

// ---------------------------------------------------------------------------
// Reading from a byte buffer
// ---------------------------------------------------------------------------

/// The `u16` bit pattern of the big-endian `int16` at `pos`, with the
/// position just past it; `None` when fewer than two bytes remain.
pub open spec fn spec_read_u16(data: Seq<u8>, pos: int) -> Option<(u16, int)> {
    if 0 <= pos && pos + 2 <= data.len() {
        Some((be_u16(data[pos], data[pos + 1]), pos + 2))
    } else {
        None
    }
}

/// The `u32` bit pattern of the big-endian `int32` at `pos`.
pub open spec fn spec_read_u32(data: Seq<u8>, pos: int) -> Option<(u32, int)> {
    if 0 <= pos && pos + 4 <= data.len() {
        Some((be_u32(data[pos], data[pos + 1], data[pos + 2], data[pos + 3]), pos + 4))
    } else {
        None
    }
}

/// The `u64` bit pattern of the big-endian `int64` at `pos`.
pub open spec fn spec_read_u64(data: Seq<u8>, pos: int) -> Option<(u64, int)> {
    if 0 <= pos && pos + 8 <= data.len() {
        Some(
            (
                be_u64(
                    data[pos],
                    data[pos + 1],
                    data[pos + 2],
                    data[pos + 3],
                    data[pos + 4],
                    data[pos + 5],
                    data[pos + 6],
                    data[pos + 7],
                ),
                pos + 8,
            ),
        )
    } else {
        None
    }
}

/// The raw bytes of the length-prefixed string at `pos`, with the position
/// just past it. `None` when the length prefix is missing or negative, or
/// when the declared length runs past the end of the buffer.
pub open spec fn spec_read_str(data: Seq<u8>, pos: int) -> Option<(Seq<u8>, int)> {
    match spec_read_u16(data, pos) {
        Some((u, p)) => {
            let len = i16_val(u);
            if 0 <= len && p + len <= data.len() {
                Some((data.subrange(p, p + len), p + len))
            } else {
                None
            }
        },
        None => None,
    }
}

fn read_u16_be(data: &[u8], pos: usize) -> (r: Option<(u16, usize)>)
    ensures
        (r matches Some(p) ==> Some((p.0, p.1 as int)) == spec_read_u16(data@, pos as int)),
        r is Some <==> spec_read_u16(data@, pos as int) is Some,
{
    if data.len() < 2 || pos > data.len() - 2 {
        return None;
    }
    let b0 = data[pos];
    let b1 = data[pos + 1];
    Some((((b0 as u16) << 8u16) | (b1 as u16), pos + 2))
}

fn read_u32_be(data: &[u8], pos: usize) -> (r: Option<(u32, usize)>)
    ensures
        (r matches Some(p) ==> Some((p.0, p.1 as int)) == spec_read_u32(data@, pos as int)),
        r is Some <==> spec_read_u32(data@, pos as int) is Some,
{
    if data.len() < 4 || pos > data.len() - 4 {
        return None;
    }
    let b0 = data[pos];
    let b1 = data[pos + 1];
    let b2 = data[pos + 2];
    let b3 = data[pos + 3];
    Some(
        (
            ((b0 as u32) << 24u32) | ((b1 as u32) << 16u32) | ((b2 as u32) << 8u32) | (b3 as u32),
            pos + 4,
        ),
    )
}

fn read_u64_be(data: &[u8], pos: usize) -> (r: Option<(u64, usize)>)
    ensures
        (r matches Some(p) ==> Some((p.0, p.1 as int)) == spec_read_u64(data@, pos as int)),
        r is Some <==> spec_read_u64(data@, pos as int) is Some,
{
    if data.len() < 8 || pos > data.len() - 8 {
        return None;
    }
    let b0 = data[pos];
    let b1 = data[pos + 1];
    let b2 = data[pos + 2];
    let b3 = data[pos + 3];
    let b4 = data[pos + 4];
    let b5 = data[pos + 5];
    let b6 = data[pos + 6];
    let b7 = data[pos + 7];
    Some(
        (
            ((b0 as u64) << 56u64) | ((b1 as u64) << 48u64) | ((b2 as u64) << 40u64) | ((b3
                as u64) << 32u64) | ((b4 as u64) << 24u64) | ((b5 as u64) << 16u64) | ((b6
                as u64) << 8u64) | (b7 as u64),
            pos + 8,
        ),
    )
}

/// The signed value of a `u32` bit pattern, as an `i32`.
fn i32_from_u32(u: u32) -> (r: i32)
    ensures
        r as int == i32_val(u),
{
    if u < 0x8000_0000 {
        u as i32
    } else {
        ((u as i64) - 0x1_0000_0000i64) as i32
    }
}

/// The signed value of a `u64` bit pattern, as an `i64`.
fn i64_from_u64(u: u64) -> (r: i64)
    ensures
        r as int == i64_val(u),
{
    if u < 0x8000_0000_0000_0000 {
        u as i64
    } else {
        ((u as i128) - 0x1_0000_0000_0000_0000i128) as i64
    }
}

/// Relies on `core::str::from_utf8`: it succeeds exactly on valid UTF-8 and
/// returns the text those bytes encode.
#[verifier::external_body]
fn try_str_from_utf8(v: &[u8]) -> (r: Option<&str>)
    ensures
        r is Some <==> valid_utf8(v@),
        (r matches Some(s) ==> s@ == decode_utf8(v@)),
{
    core::str::from_utf8(v).ok()
}

/// Read one length-prefixed string: an `int16` length, then that many bytes
/// of UTF-8. Returns the text and the position just past it, or a malformed
/// record error when the buffer is truncated, the length is negative, or the
/// bytes are not valid UTF-8.
pub fn read_str<'a>(data: &'a [u8], pos: usize) -> (r: Result<(&'a str, usize), LagError>)
    ensures
        match spec_read_str(data@, pos as int) {
            Some(sp) => {
                if valid_utf8(sp.0) {
                    (r matches Ok(p) && p.0@ == decode_utf8(sp.0) && p.1 as int == sp.1)
                } else {
                    r == Err::<(&'a str, usize), LagError>(LagError::MalformedRecord)
                }
            },
            None => r == Err::<(&'a str, usize), LagError>(LagError::MalformedRecord),
        },
{
    let (u, p) = match read_u16_be(data, pos) {
        Some(x) => x,
        None => {
            return Err(LagError::MalformedRecord);
        },
    };
    if u >= 0x8000 {
        return Err(LagError::MalformedRecord);
    }
    let len = u as usize;
    if len > data.len() - p {
        return Err(LagError::MalformedRecord);
    }
    let bytes = slice_subrange(data, p, p + len);
    match try_str_from_utf8(bytes) {
        Some(s) => Ok((s, p + len)),
        None => Err(LagError::MalformedRecord),
    }
}

/// Read one length-prefixed string as an owned `String` (see [`read_str`]).
pub fn read_string(data: &[u8], pos: usize) -> (r: Result<(String, usize), LagError>)
    ensures
        match spec_read_str(data@, pos as int) {
            Some(sp) => {
                if valid_utf8(sp.0) {
                    (r matches Ok(p) && p.0@ == decode_utf8(sp.0) && p.1 as int == sp.1)
                } else {
                    r == Err::<(String, usize), LagError>(LagError::MalformedRecord)
                }
            },
            None => r == Err::<(String, usize), LagError>(LagError::MalformedRecord),
        },
{
    match read_str(data, pos) {
        Ok((s, p)) => Ok((s.to_owned(), p)),
        Err(e) => Err(e),
    }
}

// ---------------------------------------------------------------------------
// Offset-commit records
// ---------------------------------------------------------------------------

/// The key schema version: the big-endian `int16` at the start of the key.
pub open spec fn spec_key_version(key: Seq<u8>) -> Option<int> {
    match spec_read_u16(key, 0) {
        Some((u, _)) => Some(i16_val(u)),
        None => None,
    }
}

/// The key schema versions under which a key holds an offset commit.
pub open spec fn is_offset_commit_version(v: int) -> bool {
    v == 0 || v == 1
}

/// The fields of an offset-commit key after its version: the group and topic
/// as raw string bytes, and the partition. `None` when the key is truncated
/// or a string length prefix is bad.
pub open spec fn spec_commit_key_fields(key: Seq<u8>) -> Option<(Seq<u8>, Seq<u8>, int)> {
    match spec_read_str(key, 2) {
        Some((group, p1)) => match spec_read_str(key, p1) {
            Some((topic, p2)) => match spec_read_u32(key, p2) {
                Some((u, _)) => Some((group, topic, i32_val(u))),
                None => None,
            },
            None => None,
        },
        None => None,
    }
}

/// The committed offset held by a non-empty offset-commit value: a big-endian
/// `int16` value schema version (consumed, otherwise ignored), then the
/// offset as a big-endian `int64`. `None` when the payload is too short.
pub open spec fn spec_commit_offset(payload: Seq<u8>) -> Option<int> {
    match spec_read_u16(payload, 0) {
        Some((_v, p)) => match spec_read_u64(payload, p) {
            Some((u, _)) => Some(i64_val(u)),
            None => None,
        },
        None => None,
    }
}

/// What a raw key/value pair from `__consumer_offsets` holds, at the
/// mathematical level. [`parse_message`] returns exactly this.
pub enum SpecRecord {
    /// A committed offset under key schema version 0 or 1 and a non-empty value.
    Commit { group: Seq<char>, topic: Seq<char>, partition: int, offset: int },
    /// A valid offset-commit key whose value is empty.
    Tombstone,
    /// Any record whose key schema version is not an offset-commit version.
    Metadata,
    /// A truncated buffer, a negative length prefix, or invalid UTF-8.
    Malformed,
}

/// The decoding of one raw key/value pair. Bytes after the fields the schema
/// names are tolerated, for forward compatibility.
pub open spec fn spec_decode(key: Seq<u8>, payload: Seq<u8>) -> SpecRecord {
    match spec_key_version(key) {
        None => SpecRecord::Malformed,
        Some(v) => {
            if !is_offset_commit_version(v) {
                SpecRecord::Metadata
            } else {
                match spec_commit_key_fields(key) {
                    None => SpecRecord::Malformed,
                    Some((group, topic, partition)) => {
                        if !valid_utf8(group) || !valid_utf8(topic) {
                            SpecRecord::Malformed
                        } else if payload.len() == 0 {
                            SpecRecord::Tombstone
                        } else {
                            match spec_commit_offset(payload) {
                                None => SpecRecord::Malformed,
                                Some(offset) => SpecRecord::Commit {
                                    group: decode_utf8(group),
                                    topic: decode_utf8(topic),
                                    partition,
                                    offset,
                                },
                            }
                        }
                    },
                }
            }
        },
    }
}

/// The rest of an offset-commit record, after the key schema version: group,
/// topic and partition from the key, then either a tombstone (empty value)
/// or the committed offset.
fn parse_group_offset(key: &[u8], payload: &[u8]) -> (r: Result<OffsetRecord, LagError>)
    requires
        spec_key_version(key@) matches Some(v) && is_offset_commit_version(v),
    ensures
        match spec_decode(key@, payload@) {
            SpecRecord::Commit { group, topic, partition, offset } => {
                (r matches Ok(OffsetRecord::OffsetCommit { group: g, topic: t, partition: p, offset: o })
                    && g@ == group && t@ == topic && p as int == partition && o as int == offset)
            },
            SpecRecord::Tombstone => r == Ok::<OffsetRecord, LagError>(OffsetRecord::Tombstone),
            SpecRecord::Metadata => false,
            SpecRecord::Malformed => r == Err::<OffsetRecord, LagError>(LagError::MalformedRecord),
        },
{
    let (group, p1) = match read_string(key, 2) {
        Ok(x) => x,
        Err(e) => {
            return Err(e);
        },
    };
    let (topic, p2) = match read_string(key, p1) {
        Ok(x) => x,
        Err(e) => {
            return Err(e);
        },
    };
    let pu = match read_u32_be(key, p2) {
        Some((u, _)) => u,
        None => {
            return Err(LagError::MalformedRecord);
        },
    };
    let partition = i32_from_u32(pu);
    if payload.len() == 0 {
        return Ok(OffsetRecord::Tombstone);
    }
    let p3 = match read_u16_be(payload, 0) {
        Some((_v, p)) => p,
        None => {
            return Err(LagError::MalformedRecord);
        },
    };
    let ou = match read_u64_be(payload, p3) {
        Some((u, _)) => u,
        None => {
            return Err(LagError::MalformedRecord);
        },
    };
    let offset = i64_from_u64(ou);
    Ok(OffsetRecord::OffsetCommit { group, topic, partition, offset })
}

/// Decode one raw key/value pair from `__consumer_offsets`.
///
/// A key under schema version 0 or 1 holds a committed offset: its group,
/// topic and partition come from the key, and the offset from the value; an
/// empty value is a tombstone for that entry. Any other key schema version is
/// carried through as [`OffsetRecord::GroupMetadata`], never a failure, since
/// the internal topic legitimately mixes record kinds. A buffer shorter than
/// the schema requires, a negative string length, or invalid UTF-8 is a
/// [`LagError::MalformedRecord`].
pub fn parse_message(key: &[u8], payload: &[u8]) -> (r: Result<OffsetRecord, LagError>)
    ensures
        match spec_decode(key@, payload@) {
            SpecRecord::Commit { group, topic, partition, offset } => {
                (r matches Ok(OffsetRecord::OffsetCommit { group: g, topic: t, partition: p, offset: o })
                    && g@ == group && t@ == topic && p as int == partition && o as int == offset)
            },
            SpecRecord::Tombstone => r == Ok::<OffsetRecord, LagError>(OffsetRecord::Tombstone),
            SpecRecord::Metadata => r == Ok::<OffsetRecord, LagError>(OffsetRecord::GroupMetadata),
            SpecRecord::Malformed => r == Err::<OffsetRecord, LagError>(LagError::MalformedRecord),
        },
{
    let vu = match read_u16_be(key, 0) {
        Some((u, _)) => u,
        None => {
            return Err(LagError::MalformedRecord);
        },
    };
    if vu == 0 || vu == 1 {
        parse_group_offset(key, payload)
    } else {
        Ok(OffsetRecord::GroupMetadata)
    }
}

// ---------------------------------------------------------------------------
// Encoding
// ---------------------------------------------------------------------------

/// A length-prefixed string on the wire: an `int16` length, then the bytes.
/// Meaningful for `bytes.len() <= 0x7fff`, the largest length an `int16` holds.
pub open spec fn spec_encode_str(bytes: Seq<u8>) -> Seq<u8> {
    be_bytes2(bytes.len() as u16) + bytes
}

/// An offset-commit key: key schema version, group, topic, partition.
pub open spec fn spec_encode_key(
    version: i16,
    group: Seq<char>,
    topic: Seq<char>,
    partition: i32,
) -> Seq<u8> {
    be_bytes2(u16_of_i16(version)) + spec_encode_str(encode_utf8(group)) + spec_encode_str(
        encode_utf8(topic),
    ) + be_bytes4(u32_of_i32(partition))
}

/// An offset-commit value: value schema version, then the committed offset.
pub open spec fn spec_encode_value(version: i16, offset: i64) -> Seq<u8> {
    be_bytes2(u16_of_i16(version)) + be_bytes8(u64_of_i64(offset))
}

/// The `u16` bit pattern of an `i16`, as executable code.
fn u16_from_i16(v: i16) -> (r: u16)
    ensures
        r == u16_of_i16(v),
{
    if v >= 0 {
        v as u16
    } else {
        ((v as i32) + 0x10000i32) as u16
    }
}

/// The `u32` bit pattern of an `i32`, as executable code.
fn u32_from_i32(v: i32) -> (r: u32)
    ensures
        r == u32_of_i32(v),
{
    if v >= 0 {
        v as u32
    } else {
        ((v as i64) + 0x1_0000_0000i64) as u32
    }
}

/// The `u64` bit pattern of an `i64`, as executable code.
fn u64_from_i64(v: i64) -> (r: u64)
    ensures
        r == u64_of_i64(v),
{
    if v >= 0 {
        v as u64
    } else {
        ((v as i128) + 0x1_0000_0000_0000_0000i128) as u64
    }
}

fn push_u16_be(out: &mut Vec<u8>, v: u16)
    ensures
        final(out)@ == old(out)@ + be_bytes2(v),
{
    proof {
        assert((v >> 8) < 256 && (v & 0xff) < 256) by (bit_vector);
    }
    out.push((v >> 8u16) as u8);
    out.push((v & 0xffu16) as u8);
    assert(out@ =~= old(out)@ + be_bytes2(v));
}

fn push_u32_be(out: &mut Vec<u8>, v: u32)
    ensures
        final(out)@ == old(out)@ + be_bytes4(v),
{
    proof {
        assert((v >> 24) < 256 && ((v >> 16) & 0xff) < 256 && ((v >> 8) & 0xff) < 256 && (v & 0xff)
            < 256) by (bit_vector);
    }
    out.push((v >> 24u32) as u8);
    out.push(((v >> 16u32) & 0xffu32) as u8);
    out.push(((v >> 8u32) & 0xffu32) as u8);
    out.push((v & 0xffu32) as u8);
    assert(out@ =~= old(out)@ + be_bytes4(v));
}

fn push_u64_be(out: &mut Vec<u8>, v: u64)
    ensures
        final(out)@ == old(out)@ + be_bytes8(v),
{
    proof {
        assert((v >> 56) < 256 && ((v >> 48) & 0xff) < 256 && ((v >> 40) & 0xff) < 256 && ((v >> 32)
            & 0xff) < 256 && ((v >> 24) & 0xff) < 256 && ((v >> 16) & 0xff) < 256 && ((v >> 8)
            & 0xff) < 256 && (v & 0xff) < 256) by (bit_vector);
    }
    out.push((v >> 56u64) as u8);
    out.push(((v >> 48u64) & 0xffu64) as u8);
    out.push(((v >> 40u64) & 0xffu64) as u8);
    out.push(((v >> 32u64) & 0xffu64) as u8);
    out.push(((v >> 24u64) & 0xffu64) as u8);
    out.push(((v >> 16u64) & 0xffu64) as u8);
    out.push(((v >> 8u64) & 0xffu64) as u8);
    out.push((v & 0xffu64) as u8);
    assert(out@ =~= old(out)@ + be_bytes8(v));
}

fn push_bytes(out: &mut Vec<u8>, bytes: &[u8])
    ensures
        final(out)@ == old(out)@ + bytes@,
{
    let mut i: usize = 0;
    while i < bytes.len()
        invariant
            i <= bytes.len(),
            out@ == old(out)@ + bytes@.subrange(0, i as int),
        decreases bytes.len() - i,
    {
        out.push(bytes[i]);
        assert(out@ =~= old(out)@ + bytes@.subrange(0, i + 1));
        i = i + 1;
    }
    assert(out@ =~= old(out)@ + bytes@);
}

/// Encode an offset-commit key. Fails with a malformed-record error exactly
/// when the UTF-8 bytes of the group or the topic do not fit an `int16`
/// length prefix.
pub fn encode_offset_key(version: i16, group: &str, topic: &str, partition: i32) -> (r: Result<
    Vec<u8>,
    LagError,
>)
    ensures
        encode_utf8(group@).len() <= 0x7fff && encode_utf8(topic@).len() <= 0x7fff ==> (r matches Ok(
            v,
        ) && v@ == spec_encode_key(version, group@, topic@, partition)),
        !(encode_utf8(group@).len() <= 0x7fff && encode_utf8(topic@).len() <= 0x7fff) ==> r == Err::<
            Vec<u8>,
            LagError,
        >(LagError::MalformedRecord),
{
    let gb = group.as_bytes();
    let tb = topic.as_bytes();
    if gb.len() > 0x7fff || tb.len() > 0x7fff {
        return Err(LagError::MalformedRecord);
    }
    let mut out: Vec<u8> = Vec::new();
    push_u16_be(&mut out, u16_from_i16(version));
    push_u16_be(&mut out, gb.len() as u16);
    push_bytes(&mut out, gb);
    push_u16_be(&mut out, tb.len() as u16);
    push_bytes(&mut out, tb);
    push_u32_be(&mut out, u32_from_i32(partition));
    assert(out@ =~= spec_encode_key(version, group@, topic@, partition));
    Ok(out)
}

/// Encode an offset-commit value: the value schema version and the offset.
pub fn encode_offset_value(version: i16, offset: i64) -> (r: Vec<u8>)
    ensures
        r@ == spec_encode_value(version, offset),
{
    let mut out: Vec<u8> = Vec::new();
    push_u16_be(&mut out, u16_from_i16(version));
    push_u64_be(&mut out, u64_from_i64(offset));
    assert(out@ =~= spec_encode_value(version, offset));
    out
}

// ---------------------------------------------------------------------------
// Member assignments
// ---------------------------------------------------------------------------

/// `n` consecutive big-endian `int32` partition numbers starting at `pos`,
/// with the position just past them. `None` when the buffer runs out first.
pub open spec fn spec_partitions(data: Seq<u8>, pos: int, n: nat) -> Option<(Seq<int>, int)>
    decreases n,
{
    if n == 0 {
        Some((Seq::<int>::empty(), pos))
    } else {
        match spec_read_u32(data, pos) {
            Some((u, p)) => match spec_partitions(data, p, (n - 1) as nat) {
                Some((rest, end)) => Some((seq![i32_val(u)] + rest, end)),
                None => None,
            },
            None => None,
        }
    }
}

/// `n` consecutive assignment entries starting at `pos`: each a topic string,
/// an `int32` partition count, then that many partitions. `None` on a
/// truncated buffer, a negative count, or a topic that is not valid UTF-8.
pub open spec fn spec_assignment_entries(data: Seq<u8>, pos: int, n: nat) -> Option<
    (Seq<(Seq<char>, Seq<int>)>, int),
>
    decreases n,
{
    if n == 0 {
        Some((Seq::<(Seq<char>, Seq<int>)>::empty(), pos))
    } else {
        match spec_read_str(data, pos) {
            Some((tb, p1)) => {
                if !valid_utf8(tb) {
                    None
                } else {
                    match spec_read_u32(data, p1) {
                        Some((cu, p2)) => {
                            if i32_val(cu) < 0 {
                                None
                            } else {
                                match spec_partitions(data, p2, i32_val(cu) as nat) {
                                    Some((parts, p3)) => match spec_assignment_entries(
                                        data,
                                        p3,
                                        (n - 1) as nat,
                                    ) {
                                        Some((rest, end)) => Some(
                                            (seq![(decode_utf8(tb), parts)] + rest, end),
                                        ),
                                        None => None,
                                    },
                                    None => None,
                                }
                            }
                        },
                        None => None,
                    }
                }
            },
            None => None,
        }
    }
}

/// The member assignments held by a group-metadata value payload: an `int16`
/// version (consumed, otherwise ignored), an `int32` assignment count, then
/// that many entries, in wire order.
pub open spec fn spec_member_assignments(payload: Seq<u8>) -> Option<Seq<(Seq<char>, Seq<int>)>> {
    match spec_read_u16(payload, 0) {
        Some((_v, p1)) => match spec_read_u32(payload, p1) {
            Some((cu, p2)) => {
                if i32_val(cu) < 0 {
                    None
                } else {
                    match spec_assignment_entries(payload, p2, i32_val(cu) as nat) {
                        Some((s, _)) => Some(s),
                        None => None,
                    }
                }
            },
            None => None,
        },
        None => None,
    }
}

/// Decode the member assignments of a group-metadata value payload. The
/// output order mirrors wire order: no sorting, no deduplication. A truncated
/// buffer, a negative count or length, or topic bytes that are not valid
/// UTF-8 give a malformed-record error.
#[verifier::loop_isolation(false)]
pub fn parse_member_assignment(payload: &[u8]) -> (r: Result<Vec<MemberAssignment>, LagError>)
    ensures
        match spec_member_assignments(payload@) {
            Some(s) => (r matches Ok(v) && assignments_view(v@) == s),
            None => r == Err::<Vec<MemberAssignment>, LagError>(LagError::MalformedRecord),
        },
{
    let p1 = match read_u16_be(payload, 0) {
        Some((_v, p)) => p,
        None => {
            return Err(LagError::MalformedRecord);
        },
    };
    let (cu, p2) = match read_u32_be(payload, p1) {
        Some(x) => x,
        None => {
            return Err(LagError::MalformedRecord);
        },
    };
    if cu >= 0x8000_0000 {
        return Err(LagError::MalformedRecord);
    }
    let n = cu as usize;
    let mut assigns: Vec<MemberAssignment> = Vec::new();
    let mut pos: usize = p2;
    let mut i: usize = 0;
    while i < n
        invariant
            i <= n,
            match spec_assignment_entries(payload@, pos as int, (n - i) as nat) {
                Some(se) => (spec_assignment_entries(payload@, p2 as int, n as nat) matches Some(sa)
                    && sa.0 == assignments_view(assigns@) + se.0 && sa.1 == se.1),
                None => spec_assignment_entries(payload@, p2 as int, n as nat) is None,
            },
        decreases n - i,
    {
        let (topic, q1) = match read_string(payload, pos) {
            Ok(x) => x,
            Err(e) => {
                proof {
                    assert(spec_assignment_entries(payload@, pos as int, (n - i) as nat) is None);
                    assert(spec_member_assignments(payload@) is None);
                }
                return Err(e);
            },
        };
        let (pcu, q2) = match read_u32_be(payload, q1) {
            Some(x) => x,
            None => {
                proof {
                    assert(spec_assignment_entries(payload@, pos as int, (n - i) as nat) is None);
                    assert(spec_member_assignments(payload@) is None);
                }
                return Err(LagError::MalformedRecord);
            },
        };
        if pcu >= 0x8000_0000 {
            proof {
                assert(spec_assignment_entries(payload@, pos as int, (n - i) as nat) is None);
                assert(spec_member_assignments(payload@) is None);
            }
            return Err(LagError::MalformedRecord);
        }
        let pcount = pcu as usize;
        let mut parts: Vec<i32> = Vec::new();
        let mut ppos: usize = q2;
        let mut j: usize = 0;
        while j < pcount
            invariant
                j <= pcount,
                match spec_partitions(payload@, ppos as int, (pcount - j) as nat) {
                    Some(pe) => (spec_partitions(payload@, q2 as int, pcount as nat) matches Some(
                        pa,
                    ) && pa.0 == partitions_view(parts@) + pe.0 && pa.1 == pe.1),
                    None => spec_partitions(payload@, q2 as int, pcount as nat) is None,
                },
            decreases pcount - j,
        {
            let (u, np) = match read_u32_be(payload, ppos) {
                Some(x) => x,
                None => {
                    proof {
                        assert(spec_partitions(payload@, ppos as int, (pcount - j) as nat) is None);
                        assert(spec_partitions(payload@, q2 as int, pcount as nat) is None);
                        assert(spec_assignment_entries(payload@, pos as int, (n - i) as nat)
                            is None);
                        assert(spec_member_assignments(payload@) is None);
                    }
                    return Err(LagError::MalformedRecord);
                },
            };
            let pv = i32_from_u32(u);
            let ghost parts0 = parts@;
            parts.push(pv);
            proof {
                assert(partitions_view(parts@) =~= partitions_view(parts0) + seq![i32_val(u)]);
                let rec = spec_partitions(payload@, np as int, (pcount - j - 1) as nat);
                if rec is Some {
                    assert(partitions_view(parts@) + rec.unwrap().0 =~= partitions_view(parts0) + (
                    seq![i32_val(u)] + rec.unwrap().0));
                }
            }
            ppos = np;
            j = j + 1;
        }
        assert(partitions_view(parts@) + Seq::<int>::empty() =~= partitions_view(parts@));
        let q3 = ppos;
        let ghost tv = topic@;
        let ghost pview = partitions_view(parts@);
        let ghost assigns0 = assigns@;
        assigns.push(MemberAssignment { topic, partitions: parts });
        proof {
            assert(assignments_view(assigns@) =~= assignments_view(assigns0) + seq![(tv, pview)]);
            let rec = spec_assignment_entries(payload@, q3 as int, (n - i - 1) as nat);
            if rec is Some {
                assert(assignments_view(assigns@) + rec.unwrap().0 =~= assignments_view(assigns0)
                    + (seq![(tv, pview)] + rec.unwrap().0));
            }
        }
        pos = q3;
        i = i + 1;
    }
    assert(assignments_view(assigns@) + Seq::<(Seq<char>, Seq<int>)>::empty() =~= assignments_view(
        assigns@,
    ));
    Ok(assigns)
}

// ---------------------------------------------------------------------------
// Laws
// ---------------------------------------------------------------------------

proof fn lemma_read_u16_at(data: Seq<u8>, pos: int, v: u16)
    requires
        0 <= pos,
        pos + 2 <= data.len(),
        data.subrange(pos, pos + 2) == be_bytes2(v),
    ensures
        spec_read_u16(data, pos) == Some((v, pos + 2)),
{
    assert(data[pos] == data.subrange(pos, pos + 2)[0]);
    assert(data[pos + 1] == data.subrange(pos, pos + 2)[1]);
    lemma_be_u16_round_trip(v);
}

proof fn lemma_read_u32_at(data: Seq<u8>, pos: int, v: u32)
    requires
        0 <= pos,
        pos + 4 <= data.len(),
        data.subrange(pos, pos + 4) == be_bytes4(v),
    ensures
        spec_read_u32(data, pos) == Some((v, pos + 4)),
{
    assert forall|i: int| 0 <= i < 4 implies data[pos + i] == be_bytes4(v)[i] by {
        assert(data[pos + i] == data.subrange(pos, pos + 4)[i]);
    }
    lemma_be_u32_round_trip(v);
}

proof fn lemma_read_u64_at(data: Seq<u8>, pos: int, v: u64)
    requires
        0 <= pos,
        pos + 8 <= data.len(),
        data.subrange(pos, pos + 8) == be_bytes8(v),
    ensures
        spec_read_u64(data, pos) == Some((v, pos + 8)),
{
    assert forall|i: int| 0 <= i < 8 implies data[pos + i] == be_bytes8(v)[i] by {
        assert(data[pos + i] == data.subrange(pos, pos + 8)[i]);
    }
    lemma_be_u64_round_trip(v);
}

proof fn lemma_read_str_at(data: Seq<u8>, pos: int, bytes: Seq<u8>)
    requires
        0 <= pos,
        bytes.len() <= 0x7fff,
        pos + 2 + bytes.len() <= data.len(),
        data.subrange(pos, pos + 2 + bytes.len()) == spec_encode_str(bytes),
    ensures
        spec_read_str(data, pos) == Some((bytes, pos + 2 + bytes.len())),
{
    let lenu = bytes.len() as u16;
    let end = pos + 2 + bytes.len();
    assert forall|i: int| 0 <= i < 2 + bytes.len() implies data[pos + i] == spec_encode_str(
        bytes,
    )[i] by {
        assert(data[pos + i] == data.subrange(pos, end)[i]);
    }
    assert(data.subrange(pos, pos + 2) =~= be_bytes2(lenu));
    lemma_read_u16_at(data, pos, lenu);
    assert(i16_val(lenu) == bytes.len());
    assert forall|i: int| 0 <= i < bytes.len() implies data.subrange(pos + 2, end)[i]
        == bytes[i] by {
        assert(data.subrange(pos + 2, end)[i] == data[pos + 2 + i]);
        assert(data[pos + 2 + i] == data.subrange(pos, end)[2 + i]);
        assert(spec_encode_str(bytes)[2 + i] == bytes[i]);
    }
    assert(data.subrange(pos + 2, end) =~= bytes);
}

/// Law: decoding an encoded offset-commit key together with a (non-empty)
/// encoded offset-commit value recovers the group, topic, partition and
/// offset exactly, for both offset-commit key schema versions.
#[verifier::rlimit(60)]
pub proof fn lemma_commit_round_trip(
    version: i16,
    group: Seq<char>,
    topic: Seq<char>,
    partition: i32,
    value_version: i16,
    offset: i64,
)
    requires
        version == 0 || version == 1,
        encode_utf8(group).len() <= 0x7fff,
        encode_utf8(topic).len() <= 0x7fff,
    ensures
        spec_decode(
            spec_encode_key(version, group, topic, partition),
            spec_encode_value(value_version, offset),
        ) == (SpecRecord::Commit {
            group,
            topic,
            partition: partition as int,
            offset: offset as int,
        }),
{
    let gb = encode_utf8(group);
    let tb = encode_utf8(topic);
    let key = spec_encode_key(version, group, topic, partition);
    let val = spec_encode_value(value_version, offset);
    let p1 = 4 + gb.len() as int;
    let p2 = p1 + 2 + tb.len();
    assert(key.len() == p2 + 4);
    assert(key.subrange(0, 2) =~= be_bytes2(u16_of_i16(version)));
    lemma_read_u16_at(key, 0, u16_of_i16(version));
    assert(i16_val(u16_of_i16(version)) == version as int);
    assert(key.subrange(2, p1) =~= spec_encode_str(gb));
    lemma_read_str_at(key, 2, gb);
    assert(key.subrange(p1, p2) =~= spec_encode_str(tb));
    lemma_read_str_at(key, p1, tb);
    assert(key.subrange(p2, p2 + 4) =~= be_bytes4(u32_of_i32(partition)));
    lemma_read_u32_at(key, p2, u32_of_i32(partition));
    assert(i32_val(u32_of_i32(partition)) == partition as int);
    vstd::utf8::encode_utf8_valid_utf8(group);
    vstd::utf8::encode_utf8_valid_utf8(topic);
    vstd::utf8::encode_utf8_decode_utf8(group);
    vstd::utf8::encode_utf8_decode_utf8(topic);
    assert(val.len() == 10);
    assert(val.subrange(0, 2) =~= be_bytes2(u16_of_i16(value_version)));
    lemma_read_u16_at(val, 0, u16_of_i16(value_version));
    assert(val.subrange(2, 10) =~= be_bytes8(u64_of_i64(offset)));
    lemma_read_u64_at(val, 2, u64_of_i64(offset));
    assert(i64_val(u64_of_i64(offset)) == offset as int);
}

/// Law: under a valid offset-commit key — offset-commit version, fields that
/// parse, well-formed UTF-8 — an empty value always decodes to a tombstone:
/// never to a commit, and never to a decode error.
pub proof fn lemma_empty_payload_is_tombstone(key: Seq<u8>)
    requires
        spec_key_version(key) matches Some(v) && is_offset_commit_version(v),
        spec_commit_key_fields(key) matches Some(f) && valid_utf8(f.0) && valid_utf8(f.1),
    ensures
        spec_decode(key, Seq::<u8>::empty()) == SpecRecord::Tombstone,
{
}

/// Law: a key schema version outside the offset-commit versions never decodes
/// to an offset commit — it is carried through as group metadata — and
/// conversely a decoded commit always came from an offset-commit version.
pub proof fn lemma_unknown_version_is_metadata(key: Seq<u8>, payload: Seq<u8>)
    ensures
        (spec_key_version(key) matches Some(v) && !is_offset_commit_version(v)) ==> spec_decode(
            key,
            payload,
        ) == SpecRecord::Metadata,
        (spec_decode(key, payload) matches SpecRecord::Commit { .. }) ==> (spec_key_version(key)
            matches Some(v) && is_offset_commit_version(v)),
{
}

/// Law: a truncated offset-commit key — one whose group, topic or partition
/// runs past the end of the buffer, or whose string length prefix is negative
/// — decodes to a malformed record, whatever the value holds.
pub proof fn lemma_truncated_key_is_malformed(key: Seq<u8>, payload: Seq<u8>)
    requires
        spec_key_version(key) matches Some(v) && is_offset_commit_version(v),
        spec_commit_key_fields(key) is None,
    ensures
        spec_decode(key, payload) == SpecRecord::Malformed,
{
}

} // verus!
