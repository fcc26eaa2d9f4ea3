//! The leaves of the wire format, read and written by the `borsh` crate.
//!
//! Verus does not look into `borsh`. Each function here makes one call into
//! it and states, without proof, what the call does; the rest of the crate is
//! proved from these statements.

use crate::little_endian::le_bytes;
use crate::wire::{encode_bytes, encode_string, parse_bytes, parse_string, parse_uint, MAX_FIELD_LEN};
use vstd::prelude::*;
use vstd::utf8::encode_utf8;

verus! {

/// Calls `<u64 as borsh::BorshDeserialize>::deserialize`. Claims that it
/// reads eight little-endian bytes from the front of `input` and hands back
/// the number with the bytes that follow, and fails exactly when fewer than
/// eight bytes are there.
#[verifier::external_body]
pub(crate) fn read_u64<'a>(input: &'a [u8]) -> (res: Option<(u64, &'a [u8])>)
    ensures
        match res {
            Some((x, rest)) => parse_uint(input@, 8) == Some((x as nat, rest@)),
            None => parse_uint(input@, 8) is None,
        },
{
    let mut rest = input;
    let read: Result<u64, _> = borsh::BorshDeserialize::deserialize(&mut rest);
    match read {
        Ok(x) => Some((x, rest)),
        Err(_) => None,
    }
}

/// Calls `<u128 as borsh::BorshDeserialize>::deserialize`. Claims that it
/// reads sixteen little-endian bytes from the front of `input` and hands back
/// the number with the bytes that follow, and fails exactly when fewer than
/// sixteen bytes are there.
#[verifier::external_body]
pub(crate) fn read_u128<'a>(input: &'a [u8]) -> (res: Option<(u128, &'a [u8])>)
    ensures
        match res {
            Some((x, rest)) => parse_uint(input@, 16) == Some((x as nat, rest@)),
            None => parse_uint(input@, 16) is None,
        },
{
    let mut rest = input;
    let read: Result<u128, _> = borsh::BorshDeserialize::deserialize(&mut rest);
    match read {
        Ok(x) => Some((x, rest)),
        Err(_) => None,
    }
}

/// Calls `<Vec<u8> as borsh::BorshDeserialize>::deserialize`. Claims that it
/// reads a four-byte little-endian length and then that many bytes from the
/// front of `input`, hands back those bytes with the bytes that follow, and
/// fails exactly when the length or the content is cut short.
#[verifier::external_body]
pub(crate) fn read_bytes<'a>(input: &'a [u8]) -> (res: Option<(Vec<u8>, &'a [u8])>)
    ensures
        match res {
            Some((bytes, rest)) => parse_bytes(input@) == Some((bytes@, rest@)),
            None => parse_bytes(input@) is None,
        },
{
    let mut rest = input;
    let read: Result<Vec<u8>, _> = borsh::BorshDeserialize::deserialize(&mut rest);
    match read {
        Ok(bytes) => Some((bytes, rest)),
        Err(_) => None,
    }
}

/// Calls `<String as borsh::BorshDeserialize>::deserialize`. Claims that it
/// reads a length-prefixed byte string as `read_bytes` does, hands back the
/// string that those bytes encode in UTF-8 with the bytes that follow, and
/// fails exactly when the byte string is cut short or is not valid UTF-8.
#[verifier::external_body]
pub(crate) fn read_string<'a>(input: &'a [u8]) -> (res: Option<(String, &'a [u8])>)
    ensures
        match res {
            Some((s, rest)) => parse_string(input@) == Some((s@, rest@)),
            None => parse_string(input@) is None,
        },
{
    let mut rest = input;
    let read: Result<String, _> = borsh::BorshDeserialize::deserialize(&mut rest);
    match read {
        Ok(s) => Some((s, rest)),
        Err(_) => None,
    }
}

/// Calls `<u64 as borsh::BorshSerialize>::serialize` with `out` as the
/// writer. Claims that it appends the eight little-endian bytes of `x`.
#[verifier::external_body]
pub(crate) fn write_u64(out: &mut Vec<u8>, x: u64)
    ensures
        final(out)@ == old(out)@ + le_bytes(x as nat, 8),
{
    let _ = borsh::BorshSerialize::serialize(&x, out);
}

/// Calls `<u128 as borsh::BorshSerialize>::serialize` with `out` as the
/// writer. Claims that it appends the sixteen little-endian bytes of `x`.
#[verifier::external_body]
pub(crate) fn write_u128(out: &mut Vec<u8>, x: u128)
    ensures
        final(out)@ == old(out)@ + le_bytes(x as nat, 16),
{
    let _ = borsh::BorshSerialize::serialize(&x, out);
}

/// Calls `<[u8] as borsh::BorshSerialize>::serialize` with `out` as the
/// writer. Claims that it appends the length of `bytes` in four little-endian
/// bytes and then `bytes`, and that it fails, leaving `out` as it was, exactly
/// when the length does not fit in four bytes.
#[verifier::external_body]
pub(crate) fn write_bytes(out: &mut Vec<u8>, bytes: &[u8]) -> (ok: bool)
    ensures
        ok == (bytes@.len() <= MAX_FIELD_LEN),
        ok ==> final(out)@ == old(out)@ + encode_bytes(bytes@),
        !ok ==> final(out)@ == old(out)@,
{
    borsh::BorshSerialize::serialize(bytes, out).is_ok()
}

/// Calls `<str as borsh::BorshSerialize>::serialize` with `out` as the
/// writer. Claims that it appends the UTF-8 bytes of `s` as `write_bytes`
/// would, and fails, leaving `out` as it was, exactly when their number does
/// not fit in four bytes.
#[verifier::external_body]
pub(crate) fn write_string(out: &mut Vec<u8>, s: &str) -> (ok: bool)
    ensures
        ok == (encode_utf8(s@).len() <= MAX_FIELD_LEN),
        ok ==> final(out)@ == old(out)@ + encode_string(s@),
        !ok ==> final(out)@ == old(out)@,
{
    borsh::BorshSerialize::serialize(s, out).is_ok()
}

} // verus!
