//! Integer-backed authority identifiers and the key store that holds them.

use crate::bytes::{be_bytes_32, be_value, le_value, u64_from_be, u64_from_le};
use vstd::prelude::*;

verus! {

/// An authority identifier backed by a plain integer. One value serves as
/// account identifier, public key and signature.
#[derive(Clone, Copy, Debug, PartialEq, Eq, Structural, Hash, Default, PartialOrd, Ord)]
pub struct UintAuthorityId(pub u64);

impl From<u64> for UintAuthorityId {
    fn from(id: u64) -> (authority: UintAuthorityId) {
        UintAuthorityId(id)
    }
}

impl vstd::std_specs::convert::FromSpecImpl<u64> for UintAuthorityId {
    open spec fn obeys_from_spec() -> bool {
        true
    }

    open spec fn from_spec(id: u64) -> UintAuthorityId {
        UintAuthorityId(id)
    }
}

impl From<UintAuthorityId> for u64 {
    fn from(id: UintAuthorityId) -> (number: u64) {
        id.0
    }
}

impl vstd::std_specs::convert::FromSpecImpl<UintAuthorityId> for u64 {
    open spec fn obeys_from_spec() -> bool {
        true
    }

    open spec fn from_spec(id: UintAuthorityId) -> u64 {
        id.0
    }
}

/// The keys that a node holds locally, in the order in which it reports them.
pub struct KeyStore {
    keys: Vec<UintAuthorityId>,
}

impl View for KeyStore {
    type V = Seq<UintAuthorityId>;

    closed spec fn view(&self) -> Seq<UintAuthorityId> {
        self.keys@
    }
}

impl KeyStore {
    /// A key store that holds no key.
    pub fn new() -> (store: KeyStore)
        ensures
            store@ == Seq::<UintAuthorityId>::empty(),
    {
        KeyStore { keys: Vec::new() }
    }
}

/// The message that is signed in place of `msg`: its first eight bytes, filled
/// up with the byte 42 where `msg` is shorter.
pub open spec fn padded_message(msg: Seq<u8>) -> Seq<u8> {
    Seq::new(8, |i: int| if i < msg.len() { msg[i] } else { 42u8 })
}

/// The signature of `msg`: the padded message read as a little-endian number.
/// It does not depend on the signer.
pub open spec fn signature_of(msg: Seq<u8>) -> UintAuthorityId {
    UintAuthorityId(le_value(padded_message(msg)) as u64)
}

/// `sp_core::U256::from` followed by `to_big_endian`: the number as 32 bytes,
/// most significant first. A `u64` fills the last eight of them.
#[verifier::external_body]
fn u256_big_endian(value: u64) -> (bytes: [u8; 32])
    ensures
        bytes@ == be_bytes_32(value),
{
    sp_core::U256::from(value).to_big_endian()
}

/// `rand::thread_rng` and `next_u64`: a number from the thread's generator.
/// Nothing is known of it.
#[verifier::external_body]
fn random_u64() -> (value: u64) {
    rand::RngCore::next_u64(&mut rand::thread_rng())
}

impl UintAuthorityId {
    /// The raw bytes of the 32-byte public key that stands for this
    /// identifier: the identifier as a 256-bit big-endian number.
    pub fn to_public_key(&self) -> (bytes: [u8; 32])
        ensures
            bytes@ == be_bytes_32(self.0),
    {
        u256_big_endian(self.0)
    }

    /// Reads an identifier from raw key bytes: the first eight bytes as a
    /// big-endian number. What follows them is ignored.
    pub fn from_slice(x: &[u8]) -> (id: UintAuthorityId)
        requires
            x@.len() >= 8,
        ensures
            id.0 == be_value(x@),
    {
        UintAuthorityId(u64_from_be(x))
    }

    /// The account that this key stands for: the key itself.
    pub fn into_account(self) -> (account: UintAuthorityId)
        ensures
            account == self,
    {
        self
    }

    /// Replaces the keys that `store` reports.
    pub fn set_all_keys(store: &mut KeyStore, keys: Vec<UintAuthorityId>)
        ensures
            final(store)@ == keys@,
    {
        store.keys = keys;
    }

    /// The keys that `store` holds, in its order.
    pub fn all(store: &KeyStore) -> (keys: Vec<UintAuthorityId>)
        ensures
            keys@ == store@,
    {
        let mut keys: Vec<UintAuthorityId> = Vec::new();
        let mut i: usize = 0;
        while i < store.keys.len()
            invariant
                i <= store.keys.len(),
                keys@ == store.keys@.take(i as int),
            decreases store.keys.len() - i,
        {
            keys.push(store.keys[i]);
            assert(store.keys@.take(i + 1) =~= store.keys@.take(i as int).push(store.keys@[i as int]));
            i += 1;
        }
        assert(store.keys@.take(i as int) =~= store.keys@);
        keys
    }

    /// A fresh identifier, drawn at random. The seed is not used.
    pub fn generate_pair(_seed: Option<Vec<u8>>) -> UintAuthorityId {
        UintAuthorityId(random_u64())
    }

    /// Signs `msg`. The signature is a function of the message alone and is
    /// always produced.
    pub fn sign(&self, msg: &[u8]) -> (signature: Option<UintAuthorityId>)
        ensures
            signature == Some(signature_of(msg@)),
    {
        Some(UintAuthorityId(Self::digest(msg)))
    }

    /// Whether `signature` is the signature of `msg`.
    pub fn verify(&self, msg: &[u8], signature: &UintAuthorityId) -> (ok: bool)
        ensures
            ok == (signature_of(msg@) == *signature),
    {
        Self::digest(msg) == signature.0
    }

    /// The public half of this identifier: the identifier itself.
    pub fn public(&self) -> (key: UintAuthorityId)
        ensures
            key == *self,
    {
        UintAuthorityId(self.0)
    }

    /// The secret of this identifier as raw bytes: there is none, so no
    /// bytes.
    pub fn to_raw_vec(&self) -> (bytes: Vec<u8>)
        ensures
            bytes@ == Seq::<u8>::empty(),
    {
        Vec::new()
    }

    /// The padded message as a little-endian number.
    fn digest(msg: &[u8]) -> (number: u64)
        ensures
            number == le_value(padded_message(msg@)),
            UintAuthorityId(number) == signature_of(msg@),
    {
        let mut padded: Vec<u8> = Vec::new();
        let mut i: usize = 0;
        while i < 8
            invariant
                i <= 8,
                padded@.len() == i,
                forall|j: int| 0 <= j < i ==> padded@[j] == padded_message(msg@)[j],
            decreases 8 - i,
        {
            let byte: u8 = if i < msg.len() { msg[i] } else { 42u8 };
            padded.push(byte);
            i += 1;
        }
        assert(padded@ =~= padded_message(msg@));
        u64_from_le(padded.as_slice())
    }
}

} // verus!
