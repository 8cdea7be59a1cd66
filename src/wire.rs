//! Protobuf fields: keys, `int32` and `string` values, and skipping the
//! fields a message does not know.

use vstd::prelude::*;
use vstd::utf8::{decode_utf8, encode_utf8, valid_utf8};
use crate::varint::{varint_at, varint_bytes};

verus! {

/// Wire type of varint-encoded scalars.
pub const WIRE_VARINT: u8 = 0;

/// Wire type of length-delimited values: strings and nested messages.
pub const WIRE_LEN: u8 = 2;

/// Wire type that opens a group.
pub const WIRE_START_GROUP: u8 = 3;

/// The largest field number protobuf allows.
pub const MAX_TAG: u32 = 0x1fff_ffff;

/// The key that opens a field: its number and wire type in one varint.
pub open spec fn key_bytes(tag: nat, wt: nat) -> Seq<u8> {
    varint_bytes(tag * 8 + wt)
}

/// An `i32` as the 64 bits it is widened to on the wire (sign-extended).
pub open spec fn u64_of_i32(x: i32) -> nat {
    if x >= 0 {
        x as nat
    } else {
        (x + 0x1_0000_0000_0000_0000) as nat
    }
}

/// The `i32` kept from a decoded 64-bit varint: its low 32 bits.
pub open spec fn i32_of_u64(v: int) -> i32 {
    let t = v % 0x1_0000_0000;
    if t >= 0x8000_0000 {
        (t - 0x1_0000_0000) as i32
    } else {
        t as i32
    }
}

/// The key at the front of `s`: field number, wire type and length, or
/// `None` where the varint is malformed, does not fit 32 bits, names an
/// unknown wire type or field number zero.
pub open spec fn key_at(s: Seq<u8>) -> Option<(u32, u8, nat)> {
    match varint_at(s) {
        Some((k, n)) => if k <= u32::MAX && k % 8 <= 5 && k / 8 >= 1 {
            Some(((k / 8) as u32, (k % 8) as u8, n))
        } else {
            None
        },
        None => None,
    }
}

/// A length-delimited payload at the front of `s`: where it starts and
/// ends, or `None` where its length is malformed or runs past `s`.
pub open spec fn delimited_at(s: Seq<u8>) -> Option<(nat, nat)> {
    match varint_at(s) {
        Some((len, n)) => if n + len <= s.len() {
            Some((n, (n + len) as nat))
        } else {
            None
        },
        None => None,
    }
}

/// An `int32` value with wire type `wt` at the front of `s`, and the bytes
/// it takes.
pub open spec fn int32_at(wt: u8, s: Seq<u8>) -> Option<(i32, nat)> {
    if wt != WIRE_VARINT {
        None
    } else {
        match varint_at(s) {
            Some((v, n)) => Some((i32_of_u64(v), n)),
            None => None,
        }
    }
}

/// A `string` value with wire type `wt` at the front of `s`, and the bytes
/// it takes; `None` also where the payload is not UTF-8.
pub open spec fn string_at(wt: u8, s: Seq<u8>) -> Option<(Seq<char>, nat)> {
    if wt != WIRE_LEN {
        None
    } else {
        match delimited_at(s) {
            Some((b, e)) => if valid_utf8(s.subrange(b as int, e as int)) {
                Some((decode_utf8(s.subrange(b as int, e as int)), e))
            } else {
                None
            },
            None => None,
        }
    }
}

/// The bytes a group of field `tag` takes at the front of `s`, its closing
/// key included, as protobuf's skipping walks it.
pub uninterp spec fn group_len(tag: u32, s: Seq<u8>) -> Option<nat>;

/// The bytes an unknown field's value with wire type `wt` takes at the
/// front of `s`.
pub open spec fn skip_at(wt: u8, tag: u32, s: Seq<u8>) -> Option<nat> {
    if wt == 0 {
        match varint_at(s) {
            Some((_, n)) => Some(n),
            None => None,
        }
    } else if wt == 1 {
        if 8 <= s.len() { Some(8nat) } else { None }
    } else if wt == 2 {
        match delimited_at(s) {
            Some((_, e)) => Some(e),
            None => None,
        }
    } else if wt == 3 {
        group_len(tag, s)
    } else if wt == 5 {
        if 4 <= s.len() { Some(4nat) } else { None }
    } else {
        None
    }
}

/// Relies on prost::encoding::decode_key: reads the key at `pos`, returns
/// field number, wire type and the number of bytes left after it.
#[verifier::external_body]
pub(crate) fn read_key(buf: &[u8], pos: usize) -> (r: Result<(u32, u8, usize), prost::DecodeError>)
    requires
        pos <= buf@.len(),
    ensures
        match r {
            Ok((tag, wt, left)) => {
                &&& left <= buf@.len() - pos
                &&& key_at(buf@.skip(pos as int)) == Some((tag, wt, (buf@.len() - pos - left) as nat))
            },
            Err(_) => key_at(buf@.skip(pos as int)) is None,
        },
{
    let mut rest = &buf[pos..];
    match prost::encoding::decode_key(&mut rest) {
        Ok((tag, wt)) => Ok((tag, wt as u8, rest.len())),
        Err(e) => Err(e),
    }
}

/// Relies on prost::encoding::int32::encode: appends field `tag` holding `v`.
#[verifier::external_body]
pub(crate) fn put_int32(tag: u32, v: i32, buf: &mut Vec<u8>)
    requires
        1 <= tag <= MAX_TAG,
    ensures
        final(buf)@ == old(buf)@ + key_bytes(tag as nat, 0) + varint_bytes(u64_of_i32(v)),
{
    prost::encoding::int32::encode(tag, &v, buf)
}

/// Relies on prost::encoding::int32::merge: reads the value of an `int32`
/// field at `pos` into `value`, returns the number of bytes left after it.
#[verifier::external_body]
pub(crate) fn merge_int32(wt: u8, value: &mut i32, buf: &[u8], pos: usize) -> (r: Result<usize, prost::DecodeError>)
    requires
        wt <= 5,
        pos <= buf@.len(),
    ensures
        match (r, int32_at(wt, buf@.skip(pos as int))) {
            (Ok(left), Some((v, n))) => *final(value) == v && left == buf@.len() - pos - n,
            (Err(_), None) => *final(value) == *old(value),
            _ => false,
        },
{
    let mut rest = &buf[pos..];
    let wire_type = prost::encoding::WireType::try_from(u64::from(wt))?;
    let ctx = prost::encoding::DecodeContext::default();
    prost::encoding::int32::merge(wire_type, value, &mut rest, ctx)?;
    Ok(rest.len())
}

/// Relies on prost::encoding::string::encode: appends field `tag` holding
/// the UTF-8 bytes of `s`.
#[verifier::external_body]
pub(crate) fn put_string(tag: u32, s: &String, buf: &mut Vec<u8>)
    requires
        1 <= tag <= MAX_TAG,
    ensures
        final(buf)@ == old(buf)@ + key_bytes(tag as nat, 2) + varint_bytes(encode_utf8(s@).len())
            + encode_utf8(s@),
{
    prost::encoding::string::encode(tag, s, buf)
}

/// Relies on prost::encoding::string::merge: reads the value of a `string`
/// field at `pos` into `value`, returns the number of bytes left after it;
/// on failure `value` is cleared.
#[verifier::external_body]
pub(crate) fn merge_string(wt: u8, value: &mut String, buf: &[u8], pos: usize) -> (r: Result<usize, prost::DecodeError>)
    requires
        wt <= 5,
        pos <= buf@.len(),
    ensures
        match (r, string_at(wt, buf@.skip(pos as int))) {
            (Ok(left), Some((s, n))) => final(value)@ == s && left == buf@.len() - pos - n,
            (Err(_), None) => final(value)@.len() == 0,
            _ => false,
        },
{
    let mut rest = &buf[pos..];
    let wire_type = prost::encoding::WireType::try_from(u64::from(wt))?;
    let ctx = prost::encoding::DecodeContext::default();
    prost::encoding::string::merge(wire_type, value, &mut rest, ctx)?;
    Ok(rest.len())
}

/// Relies on prost::encoding::skip_field: passes over the value of an
/// unknown field at `pos`, returns the number of bytes left after it. The
/// skip starts with prost's full nesting budget for groups.
#[verifier::external_body]
pub(crate) fn skip_value(wt: u8, tag: u32, buf: &[u8], pos: usize) -> (r: Result<usize, prost::DecodeError>)
    requires
        wt <= 5,
        pos <= buf@.len(),
    ensures
        match (r, skip_at(wt, tag, buf@.skip(pos as int))) {
            (Ok(left), Some(n)) => left == buf@.len() - pos - n,
            (Err(_), None) => true,
            _ => false,
        },
        wt == WIRE_START_GROUP ==> (r is Ok <==> group_len(tag, buf@.skip(pos as int)) is Some),
{
    let mut rest = &buf[pos..];
    let wire_type = prost::encoding::WireType::try_from(u64::from(wt))?;
    let ctx = prost::encoding::DecodeContext::default();
    prost::encoding::skip_field(wire_type, tag, &mut rest, ctx)?;
    Ok(rest.len())
}

} // verus!
