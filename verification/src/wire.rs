//! The wire format of bridging calls.
//!
//! A call travels as a tagged union in the Borsh layout: one byte that tells
//! [`BridgeCall::Eager`] from [`BridgeCall::Delayed`], one byte that tells
//! [`PromiseSpec::Create`] from [`PromiseSpec::Callback`], then the fields of
//! each descriptor in order. Strings and byte strings carry their length in
//! four little-endian bytes before their content; integers are little-endian
//! at their full width. Nothing is padded, and nothing may follow the last
//! field.

use crate::borsh_fields::{
    read_bytes, read_string, read_u128, read_u64, write_bytes, write_string, write_u128, write_u64,
};
use crate::error::BridgeError;
use crate::little_endian::{
    le_bytes, le_value, lemma_le_bytes_len, lemma_le_bytes_of_le_value, lemma_le_value_bound,
    lemma_le_value_of_le_bytes, lemma_radix_pow_widths, radix_pow,
};
use crate::promise::{
    BridgeCall, BridgeCallView, PromiseCreate, PromiseCreateView, PromiseSpec, PromiseSpecView,
};
use vstd::prelude::*;
use vstd::slice::slice_subrange;
use vstd::utf8::{
    decode_utf8, decode_utf8_encode_utf8, encode_utf8, encode_utf8_decode_utf8,
    encode_utf8_valid_utf8, valid_utf8,
};

verus! {

/// Greatest length that a length prefix can hold.
pub const MAX_FIELD_LEN: usize = 0xffff_ffff;

/// A byte string on the wire: its length in four little-endian bytes, then
/// its content.
pub open spec fn encode_bytes(bytes: Seq<u8>) -> Seq<u8> {
    le_bytes(bytes.len(), 4) + bytes
}

/// A string on the wire: its UTF-8 bytes as a byte string.
pub open spec fn encode_string(s: Seq<char>) -> Seq<u8> {
    encode_bytes(encode_utf8(s))
}

/// One descriptor on the wire: target account, method, arguments, attached
/// balance in 16 bytes, attached gas in 8 bytes.
pub open spec fn encode_promise_create(p: PromiseCreateView) -> Seq<u8> {
    encode_string(p.target_account) + encode_string(p.method) + encode_bytes(p.args) + le_bytes(
        p.attached_balance as nat,
        16,
    ) + le_bytes(p.attached_gas as nat, 8)
}

/// A promise on the wire: tag 0 and one descriptor, or tag 1, the base
/// descriptor and the callback descriptor.
pub open spec fn encode_promise_spec(spec: PromiseSpecView) -> Seq<u8> {
    match spec {
        PromiseSpecView::Create(create) => seq![0u8] + encode_promise_create(create),
        PromiseSpecView::Callback { base, callback } => seq![1u8] + encode_promise_create(base)
            + encode_promise_create(callback),
    }
}

/// A bridging call on the wire: tag 0 for eager or 1 for delayed, then the
/// promise.
pub open spec fn encode_bridge_call(call: BridgeCallView) -> Seq<u8> {
    match call {
        BridgeCallView::Eager(spec) => seq![0u8] + encode_promise_spec(spec),
        BridgeCallView::Delayed(spec) => seq![1u8] + encode_promise_spec(spec),
    }
}

/// Whether every variable-length field of the descriptor has a length that
/// four bytes can hold.
pub open spec fn create_fits_wire(p: PromiseCreateView) -> bool {
    &&& encode_utf8(p.target_account).len() <= MAX_FIELD_LEN
    &&& encode_utf8(p.method).len() <= MAX_FIELD_LEN
    &&& p.args.len() <= MAX_FIELD_LEN
}

/// Whether every descriptor of the promise fits the wire.
pub open spec fn spec_fits_wire(spec: PromiseSpecView) -> bool {
    match spec {
        PromiseSpecView::Create(create) => create_fits_wire(create),
        PromiseSpecView::Callback { base, callback } => create_fits_wire(base) && create_fits_wire(
            callback,
        ),
    }
}

/// Reads an unsigned integer of `n` little-endian bytes from the front of
/// `input`; gives the integer and what follows it, or nothing if fewer than
/// `n` bytes are left.
pub open spec fn parse_uint(input: Seq<u8>, n: nat) -> Option<(nat, Seq<u8>)> {
    if input.len() >= n {
        Some((le_value(input.subrange(0, n as int)), input.subrange(n as int, input.len() as int)))
    } else {
        None
    }
}

/// Reads a length-prefixed byte string from the front of `input`.
pub open spec fn parse_bytes(input: Seq<u8>) -> Option<(Seq<u8>, Seq<u8>)> {
    match parse_uint(input, 4) {
        Some((len, rest)) => if rest.len() >= len {
            Some((rest.subrange(0, len as int), rest.subrange(len as int, rest.len() as int)))
        } else {
            None
        },
        None => None,
    }
}

/// Reads a length-prefixed UTF-8 string from the front of `input`.
pub open spec fn parse_string(input: Seq<u8>) -> Option<(Seq<char>, Seq<u8>)> {
    match parse_bytes(input) {
        Some((bytes, rest)) => if valid_utf8(bytes) {
            Some((decode_utf8(bytes), rest))
        } else {
            None
        },
        None => None,
    }
}

/// Reads one descriptor from the front of `input`.
#[verifier::opaque]
pub open spec fn parse_promise_create(input: Seq<u8>) -> Option<(PromiseCreateView, Seq<u8>)> {
    match parse_string(input) {
        Some((target_account, after_target)) => match parse_string(after_target) {
            Some((method, after_method)) => match parse_bytes(after_method) {
                Some((args, after_args)) => match parse_uint(after_args, 16) {
                    Some((balance, after_balance)) => match parse_uint(after_balance, 8) {
                        Some((gas, rest)) => Some(
                            (
                                PromiseCreateView {
                                    target_account,
                                    method,
                                    args,
                                    attached_balance: balance as u128,
                                    attached_gas: gas as u64,
                                },
                                rest,
                            ),
                        ),
                        None => None,
                    },
                    None => None,
                },
                None => None,
            },
            None => None,
        },
        None => None,
    }
}

/// Reads one promise from the front of `input`.
pub open spec fn parse_promise_spec(input: Seq<u8>) -> Option<(PromiseSpecView, Seq<u8>)> {
    if input.len() == 0 {
        None
    } else if input[0] == 0 {
        match parse_promise_create(input.drop_first()) {
            Some((create, rest)) => Some((PromiseSpecView::Create(create), rest)),
            None => None,
        }
    } else if input[0] == 1 {
        match parse_promise_create(input.drop_first()) {
            Some((base, after_base)) => match parse_promise_create(after_base) {
                Some((callback, rest)) => Some((PromiseSpecView::Callback { base, callback }, rest)),
                None => None,
            },
            None => None,
        }
    } else {
        None
    }
}

/// Reads one bridging call from the front of `input`.
pub open spec fn parse_bridge_call(input: Seq<u8>) -> Option<(BridgeCallView, Seq<u8>)> {
    if input.len() == 0 {
        None
    } else if input[0] == 0 {
        match parse_promise_spec(input.drop_first()) {
            Some((spec, rest)) => Some((BridgeCallView::Eager(spec), rest)),
            None => None,
        }
    } else if input[0] == 1 {
        match parse_promise_spec(input.drop_first()) {
            Some((spec, rest)) => Some((BridgeCallView::Delayed(spec), rest)),
            None => None,
        }
    } else {
        None
    }
}

/// The promise that `input` holds, if `input` is exactly one promise: no byte
/// missing and none left over.
pub open spec fn decode_promise_spec(input: Seq<u8>) -> Option<PromiseSpecView> {
    match parse_promise_spec(input) {
        Some((spec, rest)) => if rest.len() == 0 {
            Some(spec)
        } else {
            None
        },
        None => None,
    }
}

/// The bridging call that `input` holds, if `input` is exactly one call: no
/// byte missing and none left over.
pub open spec fn decode_bridge_call(input: Seq<u8>) -> Option<BridgeCallView> {
    match parse_bridge_call(input) {
        Some((call, rest)) => if rest.len() == 0 {
            Some(call)
        } else {
            None
        },
        None => None,
    }
}

/// An integer below `256^n`, written in `n` bytes and followed by `tail`,
/// reads back as itself and leaves `tail`.
pub proof fn lemma_parse_uint_of_encoding(x: nat, n: nat, tail: Seq<u8>)
    requires
        x < radix_pow(n),
    ensures
        parse_uint(le_bytes(x, n) + tail, n) == Some((x, tail)),
{
    let input = le_bytes(x, n) + tail;
    lemma_le_bytes_len(x, n);
    lemma_le_value_of_le_bytes(x, n);
    assert(input.subrange(0, n as int) =~= le_bytes(x, n));
    assert(input.subrange(n as int, input.len() as int) =~= tail);
}

/// What reads as an integer of `n` bytes is that integer's `n` bytes and the
/// rest.
pub proof fn lemma_parse_uint_canonical(input: Seq<u8>, n: nat)
    requires
        parse_uint(input, n) is Some,
    ensures
        ({
            let (x, rest) = parse_uint(input, n).unwrap();
            &&& x < radix_pow(n)
            &&& input == le_bytes(x, n) + rest
        }),
{
    let (x, rest) = parse_uint(input, n).unwrap();
    let head = input.subrange(0, n as int);
    lemma_le_value_bound(head);
    lemma_le_bytes_of_le_value(head);
    assert(input =~= head + rest);
}

/// A byte string that fits the wire, written and followed by `tail`, reads
/// back as itself and leaves `tail`.
pub proof fn lemma_parse_bytes_of_encoding(bytes: Seq<u8>, tail: Seq<u8>)
    requires
        bytes.len() <= MAX_FIELD_LEN,
    ensures
        parse_bytes(encode_bytes(bytes) + tail) == Some((bytes, tail)),
{
    lemma_radix_pow_widths();
    let input = encode_bytes(bytes) + tail;
    assert(input =~= le_bytes(bytes.len(), 4) + (bytes + tail));
    lemma_parse_uint_of_encoding(bytes.len(), 4, bytes + tail);
    assert((bytes + tail).subrange(0, bytes.len() as int) =~= bytes);
    assert((bytes + tail).subrange(bytes.len() as int, (bytes + tail).len() as int) =~= tail);
}

/// What reads as a byte string is that byte string's encoding and the rest.
pub proof fn lemma_parse_bytes_canonical(input: Seq<u8>)
    requires
        parse_bytes(input) is Some,
    ensures
        ({
            let (bytes, rest) = parse_bytes(input).unwrap();
            &&& bytes.len() <= MAX_FIELD_LEN
            &&& input == encode_bytes(bytes) + rest
        }),
{
    lemma_radix_pow_widths();
    lemma_parse_uint_canonical(input, 4);
    let (len, after_len) = parse_uint(input, 4).unwrap();
    let (bytes, rest) = parse_bytes(input).unwrap();
    assert(after_len =~= bytes + rest);
    assert(input =~= encode_bytes(bytes) + rest);
}

/// A string that fits the wire, written and followed by `tail`, reads back
/// as itself and leaves `tail`.
pub proof fn lemma_parse_string_of_encoding(s: Seq<char>, tail: Seq<u8>)
    requires
        encode_utf8(s).len() <= MAX_FIELD_LEN,
    ensures
        parse_string(encode_string(s) + tail) == Some((s, tail)),
{
    lemma_parse_bytes_of_encoding(encode_utf8(s), tail);
    encode_utf8_valid_utf8(s);
    encode_utf8_decode_utf8(s);
}

/// What reads as a string is that string's encoding and the rest.
pub proof fn lemma_parse_string_canonical(input: Seq<u8>)
    requires
        parse_string(input) is Some,
    ensures
        ({
            let (s, rest) = parse_string(input).unwrap();
            &&& encode_utf8(s).len() <= MAX_FIELD_LEN
            &&& input == encode_string(s) + rest
        }),
{
    lemma_parse_bytes_canonical(input);
    let (bytes, rest) = parse_bytes(input).unwrap();
    decode_utf8_encode_utf8(bytes);
}

/// A descriptor that fits the wire, written and followed by `tail`, reads
/// back as itself and leaves `tail`.
pub proof fn lemma_parse_promise_create_of_encoding(p: PromiseCreateView, tail: Seq<u8>)
    requires
        create_fits_wire(p),
    ensures
        parse_promise_create(encode_promise_create(p) + tail) == Some((p, tail)),
{
    reveal(parse_promise_create);
    lemma_radix_pow_widths();
    let after_balance = le_bytes(p.attached_gas as nat, 8) + tail;
    let after_args = le_bytes(p.attached_balance as nat, 16) + after_balance;
    let after_method = encode_bytes(p.args) + after_args;
    let after_target = encode_string(p.method) + after_method;
    assert(encode_promise_create(p) + tail =~= encode_string(p.target_account) + after_target);
    lemma_parse_string_of_encoding(p.target_account, after_target);
    lemma_parse_string_of_encoding(p.method, after_method);
    lemma_parse_bytes_of_encoding(p.args, after_args);
    lemma_parse_uint_of_encoding(p.attached_balance as nat, 16, after_balance);
    lemma_parse_uint_of_encoding(p.attached_gas as nat, 8, tail);
}

proof fn lemma_join_fields(
    input: Seq<u8>,
    fields: (Seq<u8>, Seq<u8>, Seq<u8>, Seq<u8>, Seq<u8>),
    rests: (Seq<u8>, Seq<u8>, Seq<u8>, Seq<u8>, Seq<u8>),
)
    requires
        input == fields.0 + rests.0,
        rests.0 == fields.1 + rests.1,
        rests.1 == fields.2 + rests.2,
        rests.2 == fields.3 + rests.3,
        rests.3 == fields.4 + rests.4,
    ensures
        input == fields.0 + fields.1 + fields.2 + fields.3 + fields.4 + rests.4,
{
    assert(input =~= fields.0 + fields.1 + fields.2 + fields.3 + fields.4 + rests.4);
}

/// What reads as a descriptor is that descriptor's encoding and the rest.
pub proof fn lemma_parse_promise_create_canonical(input: Seq<u8>)
    requires
        parse_promise_create(input) is Some,
    ensures
        ({
            let (p, rest) = parse_promise_create(input).unwrap();
            &&& create_fits_wire(p)
            &&& input == encode_promise_create(p) + rest
        }),
{
    reveal(parse_promise_create);
    lemma_radix_pow_widths();
    let (p, rest) = parse_promise_create(input).unwrap();
    lemma_parse_string_canonical(input);
    let (target_account, after_target) = parse_string(input).unwrap();
    lemma_parse_string_canonical(after_target);
    let (method, after_method) = parse_string(after_target).unwrap();
    lemma_parse_bytes_canonical(after_method);
    let (args, after_args) = parse_bytes(after_method).unwrap();
    lemma_parse_uint_canonical(after_args, 16);
    let (balance, after_balance) = parse_uint(after_args, 16).unwrap();
    lemma_parse_uint_canonical(after_balance, 8);
    let (gas, after_gas) = parse_uint(after_balance, 8).unwrap();
    assert(after_gas == rest);
    assert(p.attached_balance as nat == balance);
    assert(p.attached_gas as nat == gas);
    lemma_join_fields(
        input,
        (
            encode_string(target_account),
            encode_string(method),
            encode_bytes(args),
            le_bytes(balance, 16),
            le_bytes(gas, 8),
        ),
        (after_target, after_method, after_args, after_balance, rest),
    );
}

/// A promise that fits the wire, written and followed by `tail`, reads back
/// as itself and leaves `tail`.
pub proof fn lemma_parse_promise_spec_of_encoding(spec: PromiseSpecView, tail: Seq<u8>)
    requires
        spec_fits_wire(spec),
    ensures
        parse_promise_spec(encode_promise_spec(spec) + tail) == Some((spec, tail)),
{
    let input = encode_promise_spec(spec) + tail;
    match spec {
        PromiseSpecView::Create(create) => {
            assert(input.drop_first() =~= encode_promise_create(create) + tail);
            lemma_parse_promise_create_of_encoding(create, tail);
        },
        PromiseSpecView::Callback { base, callback } => {
            let after_base = encode_promise_create(callback) + tail;
            assert(input.drop_first() =~= encode_promise_create(base) + after_base);
            lemma_parse_promise_create_of_encoding(base, after_base);
            lemma_parse_promise_create_of_encoding(callback, tail);
        },
    }
}

/// What reads as a promise is that promise's encoding and the rest.
pub proof fn lemma_parse_promise_spec_canonical(input: Seq<u8>)
    requires
        parse_promise_spec(input) is Some,
    ensures
        ({
            let (spec, rest) = parse_promise_spec(input).unwrap();
            &&& spec_fits_wire(spec)
            &&& input == encode_promise_spec(spec) + rest
        }),
{
    let (spec, rest) = parse_promise_spec(input).unwrap();
    let body = input.drop_first();
    assert(input =~= seq![input[0]] + body);
    lemma_parse_promise_create_canonical(body);
    let (first, after_first) = parse_promise_create(body).unwrap();
    if input[0] == 0 {
        assert(input =~= seq![0u8] + encode_promise_create(first) + rest);
    } else {
        lemma_parse_promise_create_canonical(after_first);
        let (second, after_second) = parse_promise_create(after_first).unwrap();
        assert(input =~= seq![1u8] + encode_promise_create(first) + encode_promise_create(second)
            + rest);
    }
}

/// A call whose promise fits the wire, written and followed by `tail`, reads
/// back as itself and leaves `tail`.
pub proof fn lemma_parse_bridge_call_of_encoding(call: BridgeCallView, tail: Seq<u8>)
    requires
        spec_fits_wire(call.promise()),
    ensures
        parse_bridge_call(encode_bridge_call(call) + tail) == Some((call, tail)),
{
    let input = encode_bridge_call(call) + tail;
    assert(input.drop_first() =~= encode_promise_spec(call.promise()) + tail);
    lemma_parse_promise_spec_of_encoding(call.promise(), tail);
}

/// What reads as a call is that call's encoding and the rest.
pub proof fn lemma_parse_bridge_call_canonical(input: Seq<u8>)
    requires
        parse_bridge_call(input) is Some,
    ensures
        ({
            let (call, rest) = parse_bridge_call(input).unwrap();
            &&& spec_fits_wire(call.promise())
            &&& input == encode_bridge_call(call) + rest
        }),
{
    let (call, rest) = parse_bridge_call(input).unwrap();
    let body = input.drop_first();
    assert(input =~= seq![input[0]] + body);
    lemma_parse_promise_spec_canonical(body);
    let spec = parse_promise_spec(body).unwrap().0;
    assert(input =~= seq![input[0]] + encode_promise_spec(spec) + rest);
}

/// Decoding the encoding of a call gives the call back.
pub proof fn lemma_decode_bridge_call_round_trip(call: BridgeCallView)
    requires
        spec_fits_wire(call.promise()),
    ensures
        decode_bridge_call(encode_bridge_call(call)) == Some(call),
{
    lemma_parse_bridge_call_of_encoding(call, Seq::empty());
    assert(encode_bridge_call(call) + Seq::<u8>::empty() =~= encode_bridge_call(call));
}

/// Only the encoding of a call decodes to it: the format has one byte string
/// per call.
pub proof fn lemma_decode_bridge_call_canonical(input: Seq<u8>)
    requires
        decode_bridge_call(input) is Some,
    ensures
        spec_fits_wire(decode_bridge_call(input).unwrap().promise()),
        encode_bridge_call(decode_bridge_call(input).unwrap()) == input,
{
    lemma_parse_bridge_call_canonical(input);
    let (call, rest) = parse_bridge_call(input).unwrap();
    assert(encode_bridge_call(call) + rest =~= encode_bridge_call(call));
}

/// Distinct calls have distinct encodings.
pub proof fn lemma_encode_bridge_call_injective(a: BridgeCallView, b: BridgeCallView)
    requires
        spec_fits_wire(a.promise()),
        spec_fits_wire(b.promise()),
        encode_bridge_call(a) == encode_bridge_call(b),
    ensures
        a == b,
{
    lemma_decode_bridge_call_round_trip(a);
    lemma_decode_bridge_call_round_trip(b);
}

/// Decoding is strict: the encoding of a call with anything after it does not
/// decode.
pub proof fn lemma_decode_rejects_trailing_bytes(call: BridgeCallView, tail: Seq<u8>)
    requires
        spec_fits_wire(call.promise()),
        tail.len() > 0,
    ensures
        decode_bridge_call(encode_bridge_call(call) + tail) is None,
{
    lemma_parse_bridge_call_of_encoding(call, tail);
}

/// Decoding is strict: the encoding of a call cut short does not decode.
pub proof fn lemma_decode_rejects_truncation(call: BridgeCallView, len: int)
    requires
        spec_fits_wire(call.promise()),
        0 <= len < encode_bridge_call(call).len(),
    ensures
        decode_bridge_call(encode_bridge_call(call).subrange(0, len)) is None,
{
    let whole = encode_bridge_call(call);
    let cut = whole.subrange(0, len);
    if decode_bridge_call(cut) is Some {
        let other = decode_bridge_call(cut).unwrap();
        lemma_decode_bridge_call_canonical(cut);
        let tail = whole.subrange(len, whole.len() as int);
        assert(whole =~= encode_bridge_call(other) + tail);
        lemma_decode_rejects_trailing_bytes(other, tail);
        lemma_decode_bridge_call_round_trip(call);
    }
}

/// Decoding the encoding of a promise gives the promise back.
pub proof fn lemma_decode_promise_spec_round_trip(spec: PromiseSpecView)
    requires
        spec_fits_wire(spec),
    ensures
        decode_promise_spec(encode_promise_spec(spec)) == Some(spec),
{
    lemma_parse_promise_spec_of_encoding(spec, Seq::empty());
    assert(encode_promise_spec(spec) + Seq::<u8>::empty() =~= encode_promise_spec(spec));
}

/// Only the encoding of a promise decodes to it.
pub proof fn lemma_decode_promise_spec_canonical(input: Seq<u8>)
    requires
        decode_promise_spec(input) is Some,
    ensures
        spec_fits_wire(decode_promise_spec(input).unwrap()),
        encode_promise_spec(decode_promise_spec(input).unwrap()) == input,
{
    lemma_parse_promise_spec_canonical(input);
    let (spec, rest) = parse_promise_spec(input).unwrap();
    assert(encode_promise_spec(spec) + rest =~= encode_promise_spec(spec));
}

/// The promise that the bridge takes `input` for when at most `max_gas` may
/// be attached to one call: the promise that `input` decodes to, if it is
/// valid.
pub open spec fn accepted_promise_spec(input: Seq<u8>, max_gas: u64) -> Option<PromiseSpecView> {
    match decode_promise_spec(input) {
        Some(spec) => if spec.is_valid(max_gas) {
            Some(spec)
        } else {
            None
        },
        None => None,
    }
}

/// The call that the bridge takes `input` for when at most `max_gas` may be
/// attached to one call: the call that `input` decodes to, if its promise is
/// valid.
pub open spec fn accepted_bridge_call(input: Seq<u8>, max_gas: u64) -> Option<BridgeCallView> {
    match decode_bridge_call(input) {
        Some(call) => if call.is_valid(max_gas) {
            Some(call)
        } else {
            None
        },
        None => None,
    }
}

fn read_promise_create<'a>(input: &'a [u8]) -> (res: Option<(PromiseCreate, &'a [u8])>)
    ensures
        match res {
            Some((p, rest)) => parse_promise_create(input@) == Some((p@, rest@)),
            None => parse_promise_create(input@) is None,
        },
{
    proof {
        reveal(parse_promise_create);
    }
    let (target_account, rest) = match read_string(input) {
        Some(found) => found,
        None => { return None; },
    };
    let (method, rest) = match read_string(rest) {
        Some(found) => found,
        None => { return None; },
    };
    let (args, rest) = match read_bytes(rest) {
        Some(found) => found,
        None => { return None; },
    };
    let (attached_balance, rest) = match read_u128(rest) {
        Some(found) => found,
        None => { return None; },
    };
    let (attached_gas, rest) = match read_u64(rest) {
        Some(found) => found,
        None => { return None; },
    };
    Some((PromiseCreate { target_account, method, args, attached_balance, attached_gas }, rest))
}

fn read_promise_spec<'a>(input: &'a [u8]) -> (res: Option<(PromiseSpec, &'a [u8])>)
    ensures
        match res {
            Some((spec, rest)) => parse_promise_spec(input@) == Some((spec@, rest@)),
            None => parse_promise_spec(input@) is None,
        },
{
    if input.len() == 0 {
        return None;
    }
    let tag = input[0];
    let body = slice_subrange(input, 1, input.len());
    assert(body@ =~= input@.drop_first());
    if tag == 0 {
        match read_promise_create(body) {
            Some((create, rest)) => Some((PromiseSpec::Create(create), rest)),
            None => None,
        }
    } else if tag == 1 {
        let (base, after_base) = match read_promise_create(body) {
            Some(found) => found,
            None => { return None; },
        };
        match read_promise_create(after_base) {
            Some((callback, rest)) => Some((PromiseSpec::Callback { base, callback }, rest)),
            None => None,
        }
    } else {
        None
    }
}

fn read_bridge_call<'a>(input: &'a [u8]) -> (res: Option<(BridgeCall, &'a [u8])>)
    ensures
        match res {
            Some((call, rest)) => parse_bridge_call(input@) == Some((call@, rest@)),
            None => parse_bridge_call(input@) is None,
        },
{
    if input.len() == 0 {
        return None;
    }
    let tag = input[0];
    let body = slice_subrange(input, 1, input.len());
    assert(body@ =~= input@.drop_first());
    if tag == 0 {
        match read_promise_spec(body) {
            Some((spec, rest)) => Some((BridgeCall::Eager(spec), rest)),
            None => None,
        }
    } else if tag == 1 {
        match read_promise_spec(body) {
            Some((spec, rest)) => Some((BridgeCall::Delayed(spec), rest)),
            None => None,
        }
    } else {
        None
    }
}

fn write_promise_create(out: &mut Vec<u8>, p: &PromiseCreate) -> (ok: bool)
    ensures
        ok == create_fits_wire(p@),
        ok ==> final(out)@ == old(out)@ + encode_promise_create(p@),
{
    if !write_string(out, p.target_account.as_str()) {
        return false;
    }
    if !write_string(out, p.method.as_str()) {
        return false;
    }
    if !write_bytes(out, p.args.as_slice()) {
        return false;
    }
    write_u128(out, p.attached_balance);
    write_u64(out, p.attached_gas);
    assert(out@ =~= old(out)@ + encode_promise_create(p@));
    true
}

fn write_promise_spec(out: &mut Vec<u8>, spec: &PromiseSpec) -> (ok: bool)
    ensures
        ok == spec_fits_wire(spec@),
        ok ==> final(out)@ == old(out)@ + encode_promise_spec(spec@),
{
    match spec {
        PromiseSpec::Create(create) => {
            out.push(0u8);
            let ok = write_promise_create(out, create);
            assert(ok ==> out@ =~= old(out)@ + encode_promise_spec(spec@));
            ok
        },
        PromiseSpec::Callback { base, callback } => {
            out.push(1u8);
            if !write_promise_create(out, base) {
                return false;
            }
            let ok = write_promise_create(out, callback);
            assert(ok ==> out@ =~= old(out)@ + encode_promise_spec(spec@));
            ok
        },
    }
}

impl PromiseSpec {
    /// Decodes a promise and checks it. Succeeds exactly when `input` is the
    /// encoding of one promise, with nothing missing and nothing after it, and
    /// every descriptor of that promise is valid under the gas ceiling
    /// `max_gas`; the promise returned is the one that `input` encodes.
    pub fn try_from_slice(input: &[u8], max_gas: u64) -> (res: Result<PromiseSpec, BridgeError>)
        ensures
            match res {
                Ok(spec) => accepted_promise_spec(input@, max_gas) == Some(spec@)
                    && spec@.is_valid(max_gas) && encode_promise_spec(spec@) == input@,
                Err(e) => e == BridgeError::MalformedInput && accepted_promise_spec(
                    input@,
                    max_gas,
                ) is None && forall|spec: PromiseSpecView|
                    spec.is_valid(max_gas) && spec_fits_wire(spec) ==> #[trigger] encode_promise_spec(
                        spec,
                    ) != input@,
            },
    {
        proof {
            if decode_promise_spec(input@) is Some {
                lemma_decode_promise_spec_canonical(input@);
            }
            assert forall|spec: PromiseSpecView|
                spec_fits_wire(spec) && #[trigger] encode_promise_spec(spec)
                    == input@ implies decode_promise_spec(input@) == Some(spec) by {
                lemma_decode_promise_spec_round_trip(spec);
            }
        }
        match read_promise_spec(input) {
            Some((spec, rest)) => {
                if rest.len() == 0 && spec.is_valid(max_gas) {
                    Ok(spec)
                } else {
                    Err(BridgeError::MalformedInput)
                }
            },
            None => Err(BridgeError::MalformedInput),
        }
    }

    /// The encoding of the promise, or nothing if one of its fields is too
    /// long for the wire.
    pub fn try_to_vec(&self) -> (res: Option<Vec<u8>>)
        ensures
            res is Some == spec_fits_wire(self@),
            res matches Some(bytes) ==> bytes@ == encode_promise_spec(self@),
    {
        let mut out: Vec<u8> = Vec::new();
        if write_promise_spec(&mut out, self) {
            assert(out@ =~= encode_promise_spec(self@));
            Some(out)
        } else {
            None
        }
    }
}

impl BridgeCall {
    /// Decodes a bridging call and checks it. Succeeds exactly when `input` is
    /// the encoding of one call, with nothing missing and nothing after it, and
    /// every descriptor of its promise is valid under the gas ceiling
    /// `max_gas`; the call returned is the one that `input` encodes.
    pub fn try_from_slice(input: &[u8], max_gas: u64) -> (res: Result<BridgeCall, BridgeError>)
        ensures
            match res {
                Ok(call) => accepted_bridge_call(input@, max_gas) == Some(call@)
                    && call@.is_valid(max_gas) && encode_bridge_call(call@) == input@,
                Err(e) => e == BridgeError::MalformedInput && accepted_bridge_call(
                    input@,
                    max_gas,
                ) is None && forall|call: BridgeCallView|
                    call.is_valid(max_gas) && spec_fits_wire(call.promise())
                        ==> #[trigger] encode_bridge_call(call) != input@,
            },
    {
        proof {
            if decode_bridge_call(input@) is Some {
                lemma_decode_bridge_call_canonical(input@);
            }
            assert forall|call: BridgeCallView|
                spec_fits_wire(call.promise()) && #[trigger] encode_bridge_call(call)
                    == input@ implies decode_bridge_call(input@) == Some(call) by {
                lemma_decode_bridge_call_round_trip(call);
            }
        }
        match read_bridge_call(input) {
            Some((call, rest)) => {
                let valid = match &call {
                    BridgeCall::Eager(spec) => spec.is_valid(max_gas),
                    BridgeCall::Delayed(spec) => spec.is_valid(max_gas),
                };
                if rest.len() == 0 && valid {
                    Ok(call)
                } else {
                    Err(BridgeError::MalformedInput)
                }
            },
            None => Err(BridgeError::MalformedInput),
        }
    }

    /// The encoding of the call, or nothing if one of its fields is too long
    /// for the wire.
    pub fn try_to_vec(&self) -> (res: Option<Vec<u8>>)
        ensures
            res is Some == spec_fits_wire(self@.promise()),
            res matches Some(bytes) ==> bytes@ == encode_bridge_call(self@),
    {
        let mut out: Vec<u8> = Vec::new();
        let ok = match self {
            BridgeCall::Eager(spec) => {
                out.push(0u8);
                write_promise_spec(&mut out, spec)
            },
            BridgeCall::Delayed(spec) => {
                out.push(1u8);
                write_promise_spec(&mut out, spec)
            },
        };
        if ok {
            assert(out@ =~= encode_bridge_call(self@));
            Some(out)
        } else {
            None
        }
    }
}

} // verus!
