//! The signed envelope around a call, and its wire format.

use crate::authority::UintAuthorityId;
use crate::bytes::{le_bytes, le_value, lemma_le_round_trip, lemma_le_value_of_prefix};
use crate::example::Call;
use vstd::prelude::*;
use vstd::slice::slice_subrange;

verus! {

/// A call together with the account that signed it, if any.
#[derive(Clone, Copy, Debug, PartialEq, Eq)]
pub struct Extrinsic {
    /// The signer, absent on an unsigned envelope.
    pub signature: Option<UintAuthorityId>,
    /// The call to dispatch.
    pub call: Call,
}

/// The index of the ledger among the modules that calls are addressed to.
pub const MODULE_INDEX: u8 = 0;

/// The wire form of a call: the index of its entry point, then its argument.
pub open spec fn encoded_call(call: Call) -> Seq<u8> {
    match call {
        Call::Request(value) => seq![0u8] + le_bytes(value),
        Call::StoreResult(value) => seq![1u8] + le_bytes(value),
        Call::Mint => seq![2u8],
        Call::SubmitFromOffchain(None) => seq![3u8, 0u8],
        Call::SubmitFromOffchain(Some(value)) => seq![3u8, 1u8] + le_bytes(value),
    }
}

/// The wire form of an optional signer: a presence byte, then the account.
pub open spec fn encoded_signature(signature: Option<UintAuthorityId>) -> Seq<u8> {
    match signature {
        None => seq![0u8],
        Some(who) => seq![1u8] + le_bytes(who.0),
    }
}

/// The wire form of an envelope: signer, module index, call.
pub open spec fn encoded(xt: Extrinsic) -> Seq<u8> {
    encoded_signature(xt.signature) + seq![MODULE_INDEX] + encoded_call(xt.call)
}

/// The little-endian number at the head of `bytes`, if eight bytes are there.
pub open spec fn decoded_u64(bytes: Seq<u8>) -> Option<u64> {
    if bytes.len() >= 8 {
        Some(le_value(bytes) as u64)
    } else {
        None
    }
}

/// The call at the head of `bytes`. Bytes behind it are ignored.
pub open spec fn decoded_call(bytes: Seq<u8>) -> Option<Call> {
    if bytes.len() == 0 {
        None
    } else if bytes[0] == 0 {
        match decoded_u64(bytes.skip(1)) {
            Some(value) => Some(Call::Request(value)),
            None => None,
        }
    } else if bytes[0] == 1 {
        match decoded_u64(bytes.skip(1)) {
            Some(value) => Some(Call::StoreResult(value)),
            None => None,
        }
    } else if bytes[0] == 2 {
        Some(Call::Mint)
    } else if bytes[0] == 3 {
        if bytes.len() < 2 {
            None
        } else if bytes[1] == 0 {
            Some(Call::SubmitFromOffchain(None))
        } else if bytes[1] == 1 {
            match decoded_u64(bytes.skip(2)) {
                Some(value) => Some(Call::SubmitFromOffchain(Some(value))),
                None => None,
            }
        } else {
            None
        }
    } else {
        None
    }
}

/// The module index and call at the head of `bytes`.
pub open spec fn decoded_function(bytes: Seq<u8>) -> Option<Call> {
    if bytes.len() > 0 && bytes[0] == MODULE_INDEX {
        decoded_call(bytes.skip(1))
    } else {
        None
    }
}

/// The envelope at the head of `bytes`. Bytes behind it are ignored.
pub open spec fn decoded(bytes: Seq<u8>) -> Option<Extrinsic> {
    if bytes.len() == 0 {
        None
    } else if bytes[0] == 0 {
        match decoded_function(bytes.skip(1)) {
            Some(call) => Some(Extrinsic { signature: None, call }),
            None => None,
        }
    } else if bytes[0] == 1 {
        match decoded_u64(bytes.skip(1)) {
            Some(who) => match decoded_function(bytes.skip(9)) {
                Some(call) => Some(Extrinsic { signature: Some(UintAuthorityId(who)), call }),
                None => None,
            },
            None => None,
        }
    } else {
        None
    }
}

/// `parity_scale_codec::Encode::encode` on a `u64`: its eight bytes, least
/// significant first.
#[verifier::external_body]
fn encode_u64(value: u64) -> (bytes: Vec<u8>)
    ensures
        bytes@ == le_bytes(value),
{
    parity_scale_codec::Encode::encode(&value)
}

/// `parity_scale_codec::Decode::decode` for a `u64` on a byte slice: the
/// little-endian number in the first eight bytes, and nothing where the slice
/// is shorter.
#[verifier::external_body]
fn decode_u64(input: &[u8]) -> (value: Option<u64>)
    ensures
        value == decoded_u64(input@),
{
    let mut rest: &[u8] = input;
    parity_scale_codec::Decode::decode(&mut rest).ok()
}

/// Reads the call at the head of `bytes`.
fn decode_call(bytes: &[u8]) -> (call: Option<Call>)
    ensures
        call == decoded_call(bytes@),
{
    let len: usize = bytes.len();
    if len == 0 {
        return None;
    }
    let index: u8 = bytes[0];
    if index == 0 {
        match decode_u64(slice_subrange(bytes, 1, len)) {
            Some(value) => Some(Call::Request(value)),
            None => None,
        }
    } else if index == 1 {
        match decode_u64(slice_subrange(bytes, 1, len)) {
            Some(value) => Some(Call::StoreResult(value)),
            None => None,
        }
    } else if index == 2 {
        Some(Call::Mint)
    } else if index == 3 {
        if len < 2 {
            None
        } else if bytes[1] == 0 {
            Some(Call::SubmitFromOffchain(None))
        } else if bytes[1] == 1 {
            match decode_u64(slice_subrange(bytes, 2, len)) {
                Some(value) => Some(Call::SubmitFromOffchain(Some(value))),
                None => None,
            }
        } else {
            None
        }
    } else {
        None
    }
}

/// Reads the module index and the call at the head of `bytes`.
fn decode_function(bytes: &[u8]) -> (call: Option<Call>)
    ensures
        call == decoded_function(bytes@),
{
    let len: usize = bytes.len();
    if len > 0 && bytes[0] == MODULE_INDEX {
        decode_call(slice_subrange(bytes, 1, len))
    } else {
        None
    }
}

/// Appends the wire form of `call` to `out`.
fn encode_call_to(call: Call, out: &mut Vec<u8>)
    ensures
        final(out)@ == old(out)@ + encoded_call(call),
{
    match call {
        Call::Request(value) => {
            out.push(0);
            let mut number: Vec<u8> = encode_u64(value);
            out.append(&mut number);
            assert(out@ =~= old(out)@ + encoded_call(call));
        },
        Call::StoreResult(value) => {
            out.push(1);
            let mut number: Vec<u8> = encode_u64(value);
            out.append(&mut number);
            assert(out@ =~= old(out)@ + encoded_call(call));
        },
        Call::Mint => {
            out.push(2);
            assert(out@ =~= old(out)@ + encoded_call(call));
        },
        Call::SubmitFromOffchain(None) => {
            out.push(3);
            out.push(0);
            assert(out@ =~= old(out)@ + encoded_call(call));
        },
        Call::SubmitFromOffchain(Some(value)) => {
            out.push(3);
            out.push(1);
            let mut number: Vec<u8> = encode_u64(value);
            out.append(&mut number);
            assert(out@ =~= old(out)@ + encoded_call(call));
        },
    }
}

impl Call {
    /// Prepares `call` for signing by `account`: the call itself, and the
    /// signature data that goes into the envelope, which is the number of
    /// the account. The key and the index of the transaction play no part,
    /// and the preparation never fails.
    pub fn create_transaction(
        call: Call,
        _public: UintAuthorityId,
        account: UintAuthorityId,
        _index: u64,
    ) -> (prepared: Option<(Call, (u64, ()))>)
        ensures
            prepared == Some((call, (account.0, ()))),
    {
        Some((call, (account.0, ())))
    }
}

impl Extrinsic {
    /// An envelope around `call` with the given signature data, or without
    /// a signer. There always is one.
    pub fn new(call: Call, signature: Option<(u64, ())>) -> (xt: Option<Extrinsic>)
        ensures
            xt == Some(
                Extrinsic {
                    signature: match signature {
                        Some(data) => Some(UintAuthorityId(data.0)),
                        None => None,
                    },
                    call,
                },
            ),
    {
        let signer: Option<UintAuthorityId> = match signature {
            Some(data) => Some(UintAuthorityId(data.0)),
            None => None,
        };
        Some(Extrinsic { signature: signer, call })
    }

    /// The wire form of this envelope.
    pub fn encode(&self) -> (bytes: Vec<u8>)
        ensures
            bytes@ == encoded(*self),
    {
        let mut out: Vec<u8> = Vec::new();
        match self.signature {
            None => {
                out.push(0);
            },
            Some(who) => {
                out.push(1);
                let mut number: Vec<u8> = encode_u64(who.0);
                out.append(&mut number);
            },
        }
        assert(out@ =~= encoded_signature(self.signature));
        out.push(MODULE_INDEX);
        encode_call_to(self.call, &mut out);
        assert(out@ =~= encoded(*self));
        out
    }

    /// Reads the envelope at the head of `bytes`. There is none where the
    /// bytes end early or hold an index that stands for nothing.
    pub fn decode(bytes: &[u8]) -> (xt: Option<Extrinsic>)
        ensures
            xt == decoded(bytes@),
    {
        let len: usize = bytes.len();
        if len == 0 {
            return None;
        }
        let presence: u8 = bytes[0];
        if presence == 0 {
            match decode_function(slice_subrange(bytes, 1, len)) {
                Some(call) => Some(Extrinsic { signature: None, call }),
                None => None,
            }
        } else if presence == 1 {
            match decode_u64(slice_subrange(bytes, 1, len)) {
                Some(who) => {
                    match decode_function(slice_subrange(bytes, 9, len)) {
                        Some(call) => Some(
                            Extrinsic { signature: Some(UintAuthorityId(who)), call },
                        ),
                        None => None,
                    }
                },
                None => None,
            }
        } else {
            None
        }
    }
}

/// A number is read back from its wire form, whatever follows it.
proof fn lemma_decoded_u64(value: u64, tail: Seq<u8>)
    ensures
        decoded_u64(le_bytes(value) + tail) == Some(value),
{
    lemma_le_round_trip(value);
    let bytes = le_bytes(value) + tail;
    assert(forall|i: int| 0 <= i < 8 ==> bytes[i] == le_bytes(value)[i]);
    lemma_le_value_of_prefix(bytes, le_bytes(value));
}

/// A call is read back from its wire form, whatever follows it.
pub proof fn lemma_call_round_trip(call: Call, tail: Seq<u8>)
    ensures
        decoded_call(encoded_call(call) + tail) == Some(call),
{
    let bytes = encoded_call(call) + tail;
    match call {
        Call::Request(value) => {
            assert(bytes.skip(1) =~= le_bytes(value) + tail);
            lemma_decoded_u64(value, tail);
        },
        Call::StoreResult(value) => {
            assert(bytes.skip(1) =~= le_bytes(value) + tail);
            lemma_decoded_u64(value, tail);
        },
        Call::Mint => {},
        Call::SubmitFromOffchain(None) => {},
        Call::SubmitFromOffchain(Some(value)) => {
            assert(bytes.skip(2) =~= le_bytes(value) + tail);
            lemma_decoded_u64(value, tail);
        },
    }
}

/// Decoding undoes encoding: an envelope is read back from its wire form,
/// whatever bytes follow it.
pub proof fn lemma_round_trip(xt: Extrinsic, tail: Seq<u8>)
    ensures
        decoded(encoded(xt) + tail) == Some(xt),
{
    let bytes = encoded(xt) + tail;
    let function = seq![MODULE_INDEX] + encoded_call(xt.call) + tail;
    assert(function.skip(1) =~= encoded_call(xt.call) + tail);
    lemma_call_round_trip(xt.call, tail);
    assert(decoded_function(function) == Some(xt.call));
    match xt.signature {
        None => {
            assert(bytes.skip(1) =~= function);
        },
        Some(who) => {
            lemma_le_round_trip(who.0);
            assert(bytes.skip(1) =~= le_bytes(who.0) + function);
            lemma_decoded_u64(who.0, function);
            assert(bytes.skip(9) =~= function);
        },
    }
}

} // verus!
