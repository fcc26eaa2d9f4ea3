//! The versioned, namespaced key space of the bridge's persistent state.
//!
//! Every storage key is `[version byte][namespace byte][payload]`. The
//! namespace byte is drawn from the closed set [`KeyPrefix`]. Keys of contract
//! storage carry the owner's address and a generation counter, so that raising
//! the counter of an address puts all its earlier keys out of reach at once.

use crate::little_endian::{le_bytes, lemma_le_bytes_injective, lemma_le_bytes_len, lemma_radix_pow_widths};
use crate::types::Address;
use vstd::prelude::*;

verus! {

/// The version byte that leads every key. Counting starts at 0x7, since the
/// unversioned key space that came before ended at 0x6.
#[derive(Clone, Copy, Debug, PartialEq, Eq)]
pub enum VersionPrefix {
    V1,
}

impl VersionPrefix {
    /// The byte that stands for this version.
    pub open spec fn byte(self) -> u8 {
        0x7
    }

    /// The byte that stands for this version.
    pub fn as_u8(self) -> (b: u8)
        ensures
            b == self.byte(),
    {
        0x7
    }
}

/// The namespaces of the key space.
#[derive(Clone, Copy, Debug, PartialEq, Eq)]
pub enum KeyPrefix {
    Config,
    Nonce,
    Balance,
    Code,
    Storage,
    RelayerEvmAddressMap,
    EthConnector,
    Generation,
    Nep141Erc20Map,
    Erc20Nep141Map,
}

/// Distinguishes the storage keys used by the connector namespace.
#[derive(Clone, Copy, Debug, PartialEq, Eq)]
pub enum EthConnectorStorageId {
    Contract,
    FungibleToken,
    UsedEvent,
    PausedMask,
    StatisticsAuroraAccountsCounter,
    FungibleTokenMetadata,
}

/// A namespace in its integral form.
pub type KeyPrefixU8 = u8;

impl KeyPrefix {
    /// The byte that stands for this namespace.
    pub open spec fn byte(self) -> u8 {
        match self {
            KeyPrefix::Config => 0x0,
            KeyPrefix::Nonce => 0x1,
            KeyPrefix::Balance => 0x2,
            KeyPrefix::Code => 0x3,
            KeyPrefix::Storage => 0x4,
            KeyPrefix::RelayerEvmAddressMap => 0x5,
            KeyPrefix::EthConnector => 0x6,
            KeyPrefix::Generation => 0x7,
            KeyPrefix::Nep141Erc20Map => 0x8,
            KeyPrefix::Erc20Nep141Map => 0x9,
        }
    }

    /// Whether a byte stands for a namespace.
    pub open spec fn is_defined(value: u8) -> bool {
        value <= 0x9
    }

    /// The namespace that a defined byte stands for.
    pub open spec fn of_byte(value: u8) -> KeyPrefix
        recommends
            Self::is_defined(value),
    {
        if value == 0x0 {
            KeyPrefix::Config
        } else if value == 0x1 {
            KeyPrefix::Nonce
        } else if value == 0x2 {
            KeyPrefix::Balance
        } else if value == 0x3 {
            KeyPrefix::Code
        } else if value == 0x4 {
            KeyPrefix::Storage
        } else if value == 0x5 {
            KeyPrefix::RelayerEvmAddressMap
        } else if value == 0x6 {
            KeyPrefix::EthConnector
        } else if value == 0x7 {
            KeyPrefix::Generation
        } else if value == 0x8 {
            KeyPrefix::Nep141Erc20Map
        } else {
            KeyPrefix::Erc20Nep141Map
        }
    }

    /// The byte that stands for this namespace.
    pub fn as_u8(self) -> (b: u8)
        ensures
            b == self.byte(),
    {
        match self {
            KeyPrefix::Config => 0x0,
            KeyPrefix::Nonce => 0x1,
            KeyPrefix::Balance => 0x2,
            KeyPrefix::Code => 0x3,
            KeyPrefix::Storage => 0x4,
            KeyPrefix::RelayerEvmAddressMap => 0x5,
            KeyPrefix::EthConnector => 0x6,
            KeyPrefix::Generation => 0x7,
            KeyPrefix::Nep141Erc20Map => 0x8,
            KeyPrefix::Erc20Nep141Map => 0x9,
        }
    }

    /// The namespace that a byte stands for. Only this key space ever writes
    /// namespace bytes, so an undefined byte can only come from corrupted state:
    /// callers owe the proof that the byte is defined.
    pub fn from(value: KeyPrefixU8) -> (prefix: KeyPrefix)
        requires
            Self::is_defined(value),
        ensures
            prefix == Self::of_byte(value),
            prefix.byte() == value,
    {
        match value {
            0x0 => KeyPrefix::Config,
            0x1 => KeyPrefix::Nonce,
            0x2 => KeyPrefix::Balance,
            0x3 => KeyPrefix::Code,
            0x4 => KeyPrefix::Storage,
            0x5 => KeyPrefix::RelayerEvmAddressMap,
            0x6 => KeyPrefix::EthConnector,
            0x7 => KeyPrefix::Generation,
            0x8 => KeyPrefix::Nep141Erc20Map,
            _ => KeyPrefix::Erc20Nep141Map,
        }
    }

    /// Decoding the byte of a namespace gives the namespace back, and every
    /// such byte is defined.
    pub proof fn lemma_byte_round_trip(prefix: KeyPrefix)
        ensures
            Self::is_defined(prefix.byte()),
            Self::of_byte(prefix.byte()) == prefix,
    {
    }

    /// Encoding the namespace of a defined byte gives the byte back.
    pub proof fn lemma_of_byte_round_trip(value: u8)
        requires
            Self::is_defined(value),
        ensures
            Self::of_byte(value).byte() == value,
    {
    }

    /// Distinct namespaces have distinct bytes, and distinct defined bytes
    /// stand for distinct namespaces.
    pub proof fn lemma_byte_injective(a: KeyPrefix, b: KeyPrefix)
        requires
            a.byte() == b.byte(),
        ensures
            a == b,
    {
    }
}

impl EthConnectorStorageId {
    /// The byte that stands for this identifier.
    pub open spec fn byte(self) -> u8 {
        match self {
            EthConnectorStorageId::Contract => 0x0,
            EthConnectorStorageId::FungibleToken => 0x1,
            EthConnectorStorageId::UsedEvent => 0x2,
            EthConnectorStorageId::PausedMask => 0x3,
            EthConnectorStorageId::StatisticsAuroraAccountsCounter => 0x4,
            EthConnectorStorageId::FungibleTokenMetadata => 0x5,
        }
    }

    /// The byte that stands for this identifier.
    pub fn as_u8(self) -> (b: u8)
        ensures
            b == self.byte(),
    {
        match self {
            EthConnectorStorageId::Contract => 0x0,
            EthConnectorStorageId::FungibleToken => 0x1,
            EthConnectorStorageId::UsedEvent => 0x2,
            EthConnectorStorageId::PausedMask => 0x3,
            EthConnectorStorageId::StatisticsAuroraAccountsCounter => 0x4,
            EthConnectorStorageId::FungibleTokenMetadata => 0x5,
        }
    }
}

/// The key of `payload` in the namespace `prefix`: the version byte, the
/// namespace byte, then the payload.
pub open spec fn storage_key(prefix: KeyPrefix, payload: Seq<u8>) -> Seq<u8> {
    seq![VersionPrefix::V1.byte(), prefix.byte()] + payload
}

/// The key under which the storage of the contract at `address` lives in its
/// generation `generation`: the address, then the generation in four
/// little-endian bytes, in the storage namespace.
pub open spec fn contract_blob_key(address: Seq<u8>, generation: u32) -> Seq<u8> {
    storage_key(KeyPrefix::Storage, address + le_bytes(generation as nat, 4))
}

/// The key of `bytes` in the namespace `prefix`.
pub fn bytes_to_key(prefix: KeyPrefix, bytes: &[u8]) -> (key: Vec<u8>)
    ensures
        key@ == storage_key(prefix, bytes@),
{
    let mut key: Vec<u8> = Vec::new();
    key.push(VersionPrefix::V1.as_u8());
    key.push(prefix.as_u8());
    key.extend_from_slice(bytes);
    assert(key@ =~= storage_key(prefix, bytes@));
    key
}

/// The key of `address` in the namespace `prefix`.
pub fn address_to_key(prefix: KeyPrefix, address: &Address) -> (key: [u8; 22])
    ensures
        key@ == storage_key(prefix, address@),
{
    let mut result = [0u8; 22];
    result[0] = VersionPrefix::V1.as_u8();
    result[1] = prefix.as_u8();
    let bytes = address.as_bytes();
    let mut i: usize = 0;
    while i < 20
        invariant
            i <= 20,
            bytes@.len() == 20,
            result@[0] == VersionPrefix::V1.byte(),
            result@[1] == prefix.byte(),
            forall|k: int| 0 <= k < i ==> result@[2 + k] == bytes@[k],
        decreases 20 - i,
    {
        result[2 + i] = bytes[i];
        i = i + 1;
    }
    assert(result@ =~= storage_key(prefix, address@));
    result
}

/// The storage key of the contract at `address` in its generation
/// `generation`.
pub fn contract_blob_storage_key(address: &Address, generation: u32) -> (key: [u8; 26])
    ensures
        key@ == contract_blob_key(address@, generation),
{
    let mut result = [0u8; 26];
    result[0] = VersionPrefix::V1.as_u8();
    result[1] = KeyPrefix::Storage.as_u8();
    let bytes = address.as_bytes();
    let mut i: usize = 0;
    while i < 20
        invariant
            i <= 20,
            bytes@.len() == 20,
            result@[0] == VersionPrefix::V1.byte(),
            result@[1] == KeyPrefix::Storage.byte(),
            forall|k: int| 0 <= k < i ==> result@[2 + k] == bytes@[k],
        decreases 20 - i,
    {
        result[2 + i] = bytes[i];
        i = i + 1;
    }
    result[22] = (generation % 256) as u8;
    result[23] = ((generation / 256) % 256) as u8;
    result[24] = ((generation / 65536) % 256) as u8;
    result[25] = ((generation / 16777216) % 256) as u8;
    proof {
        reveal_with_fuel(le_bytes, 5);
        let g = generation as nat;
        assert(g / 256 / 256 == g / 65536);
        assert(g / 256 / 256 / 256 == g / 16777216);
        assert(result@ =~= contract_blob_key(address@, generation));
    }
    result
}

/// Keys never collide: a key determines its namespace and its payload.
pub proof fn lemma_storage_key_injective(
    prefix1: KeyPrefix,
    payload1: Seq<u8>,
    prefix2: KeyPrefix,
    payload2: Seq<u8>,
)
    requires
        storage_key(prefix1, payload1) == storage_key(prefix2, payload2),
    ensures
        prefix1 == prefix2,
        payload1 == payload2,
{
    let k1 = storage_key(prefix1, payload1);
    let k2 = storage_key(prefix2, payload2);
    assert(k1[1] == prefix1.byte());
    assert(k2[1] == prefix2.byte());
    KeyPrefix::lemma_byte_injective(prefix1, prefix2);
    assert(payload1 =~= k1.subrange(2, k1.len() as int));
    assert(payload2 =~= k2.subrange(2, k2.len() as int));
}

/// Keys of contract storage never collide: two keys are equal only if both
/// the owner and the generation are. In particular, raising the generation of
/// an address leaves none of its earlier keys reachable.
pub proof fn lemma_contract_blob_key_injective(
    address1: Address,
    generation1: u32,
    address2: Address,
    generation2: u32,
)
    requires
        contract_blob_key(address1@, generation1) == contract_blob_key(address2@, generation2),
    ensures
        address1 == address2,
        generation1 == generation2,
{
    let generation_a = le_bytes(generation1 as nat, 4);
    let generation_b = le_bytes(generation2 as nat, 4);
    let payload_a = address1@ + generation_a;
    let payload_b = address2@ + generation_b;
    lemma_storage_key_injective(KeyPrefix::Storage, payload_a, KeyPrefix::Storage, payload_b);
    address1.lemma_len();
    address2.lemma_len();
    lemma_le_bytes_len(generation1 as nat, 4);
    lemma_le_bytes_len(generation2 as nat, 4);
    assert(address1@ =~= payload_a.subrange(0, 20));
    assert(address2@ =~= payload_b.subrange(0, 20));
    assert(generation_a =~= payload_a.subrange(20, 24));
    assert(generation_b =~= payload_b.subrange(20, 24));
    lemma_radix_pow_widths();
    lemma_le_bytes_injective(generation1 as nat, generation2 as nat, 4);
    address1.lemma_ext_equal(address2);
}

} // verus!
