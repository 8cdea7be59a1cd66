//! Base-128 variable-length integers, the building block of the wire format.

use vstd::prelude::*;

verus! {

/// The error the protobuf primitives report on malformed input.
#[verifier::external_type_specification]
#[verifier::external_body]
pub struct ExDecodeError(prost::DecodeError);

/// The bytes of `v` as a varint: seven bits per byte, least significant
/// group first, the high bit set on every byte but the last.
pub open spec fn varint_bytes(v: nat) -> Seq<u8>
    decreases v,
{
    if v < 128 {
        seq![v as u8]
    } else {
        seq![(v % 128 + 128) as u8] + varint_bytes(v / 128)
    }
}

/// Reads a varint from the front of `s`, `k` bytes of it having been read
/// already: its value and the number of bytes it takes, or `None` where the
/// bytes end first, where it runs past ten bytes, or where a tenth byte
/// would carry the value past 64 bits.
pub open spec fn varint_tail(s: Seq<u8>, k: nat) -> Option<(int, nat)>
    decreases 10 - k,
{
    if k >= 10 || s.len() == 0 {
        None
    } else if s[0] < 128 {
        if k == 9 && s[0] >= 2 {
            None
        } else {
            Some((s[0] as int, 1nat))
        }
    } else {
        match varint_tail(s.drop_first(), k + 1) {
            Some((v, n)) => Some(((s[0] - 128) + 128 * v, n + 1)),
            None => None,
        }
    }
}

/// The varint at the front of `s`: its value and its length in bytes.
pub open spec fn varint_at(s: Seq<u8>) -> Option<(int, nat)> {
    varint_tail(s, 0)
}

/// The bound on a value whose varint starts after `k` bytes of another.
pub open spec fn varint_cap(k: nat) -> nat
    decreases 10 - k,
{
    if k >= 9 {
        2
    } else {
        128 * varint_cap(k + 1)
    }
}

proof fn lemma_varint_tail_of_bytes(v: nat, k: nat, rest: Seq<u8>)
    requires
        k <= 9,
        v < varint_cap(k),
    ensures
        varint_tail(varint_bytes(v) + rest, k) == Some((v as int, varint_bytes(v).len())),
    decreases v,
{
    let s = varint_bytes(v) + rest;
    if v < 128 {
        if k < 9 {
            assert(varint_cap(k) == 128 * varint_cap(k + 1));
        }
        assert(s[0] == v as u8);
    } else {
        assert(k < 9);
        assert(varint_cap(k) == 128 * varint_cap(k + 1));
        assert(v / 128 < varint_cap(k + 1)) by (nonlinear_arith)
            requires v < 128 * varint_cap(k + 1);
        lemma_varint_tail_of_bytes(v / 128, k + 1, rest);
        assert(s.drop_first() =~= varint_bytes(v / 128) + rest);
        assert(s[0] == (v % 128 + 128) as u8);
        assert(v == v % 128 + 128 * (v / 128)) by (nonlinear_arith);
    }
}

proof fn lemma_varint_len_cap(v: nat, k: nat)
    requires
        k <= 9,
        v < varint_cap(k),
    ensures
        1 <= varint_bytes(v).len() <= 10 - k,
    decreases v,
{
    if v >= 128 {
        assert(varint_cap(k) == 128 * varint_cap(k + 1));
        assert(v / 128 < varint_cap(k + 1)) by (nonlinear_arith)
            requires v < 128 * varint_cap(k + 1);
        lemma_varint_len_cap(v / 128, k + 1);
    }
}

/// The varint of a 64-bit value takes one to ten bytes.
pub proof fn lemma_varint_len(v: u64)
    ensures
        1 <= varint_bytes(v as nat).len() <= 10,
{
    reveal_with_fuel(varint_cap, 11);
    assert(varint_cap(0) == 0x1_0000_0000_0000_0000);
    lemma_varint_len_cap(v as nat, 0);
}

/// Every 64-bit value reads back from its varint, whatever follows it.
pub proof fn lemma_varint_round_trip(v: u64, rest: Seq<u8>)
    ensures
        varint_at(varint_bytes(v as nat) + rest) == Some((v as int, varint_bytes(v as nat).len())),
{
    reveal_with_fuel(varint_cap, 11);
    assert(varint_cap(0) == 0x1_0000_0000_0000_0000);
    lemma_varint_tail_of_bytes(v as nat, 0, rest);
}

/// Relies on prost::encoding::encode_varint: appends the varint of `v`.
#[verifier::external_body]
pub(crate) fn put_varint(v: u64, buf: &mut Vec<u8>)
    ensures
        final(buf)@ == old(buf)@ + varint_bytes(v as nat),
{
    prost::encoding::encode_varint(v, buf)
}

/// Relies on prost::encoding::decode_varint: reads the varint that starts at
/// `pos` and returns its value with the number of bytes left after it.
#[verifier::external_body]
pub(crate) fn read_varint(buf: &[u8], pos: usize) -> (r: Result<(u64, usize), prost::DecodeError>)
    requires
        pos <= buf@.len(),
    ensures
        match r {
            Ok((v, left)) => {
                &&& left <= buf@.len() - pos
                &&& varint_at(buf@.skip(pos as int)) == Some((v as int, (buf@.len() - pos - left) as nat))
            },
            Err(_) => varint_at(buf@.skip(pos as int)) is None,
        },
{
    let mut rest = &buf[pos..];
    match prost::encoding::decode_varint(&mut rest) {
        Ok(v) => Ok((v, rest.len())),
        Err(e) => Err(e),
    }
}

} // verus!
