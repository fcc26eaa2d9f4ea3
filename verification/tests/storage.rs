use xcc_bridge::storage::{
    address_to_key, bytes_to_key, contract_blob_storage_key, EthConnectorStorageId, KeyPrefix,
    VersionPrefix,
};
use xcc_bridge::types::Address;

const ALL_PREFIXES: [KeyPrefix; 10] = [
    KeyPrefix::Config,
    KeyPrefix::Nonce,
    KeyPrefix::Balance,
    KeyPrefix::Code,
    KeyPrefix::Storage,
    KeyPrefix::RelayerEvmAddressMap,
    KeyPrefix::EthConnector,
    KeyPrefix::Generation,
    KeyPrefix::Nep141Erc20Map,
    KeyPrefix::Erc20Nep141Map,
];

fn sample_address() -> Address {
    let mut raw = [0u8; 20];
    for (i, b) in raw.iter_mut().enumerate() {
        *b = 0xa0 + i as u8;
    }
    Address::from_array(raw)
}

#[test]
fn version_prefix_is_seven() {
    assert_eq!(VersionPrefix::V1.as_u8(), 0x7);
}

#[test]
fn key_prefix_bytes_are_zero_to_nine() {
    for (i, prefix) in ALL_PREFIXES.iter().enumerate() {
        assert_eq!(prefix.as_u8(), i as u8);
    }
}

#[test]
fn key_prefix_round_trip() {
    for prefix in ALL_PREFIXES.iter() {
        assert_eq!(KeyPrefix::from(prefix.as_u8()), *prefix);
    }
    for value in 0u8..=9 {
        assert_eq!(KeyPrefix::from(value).as_u8(), value);
    }
}

#[test]
fn eth_connector_storage_id_bytes() {
    assert_eq!(EthConnectorStorageId::Contract.as_u8(), 0x0);
    assert_eq!(EthConnectorStorageId::FungibleToken.as_u8(), 0x1);
    assert_eq!(EthConnectorStorageId::UsedEvent.as_u8(), 0x2);
    assert_eq!(EthConnectorStorageId::PausedMask.as_u8(), 0x3);
    assert_eq!(
        EthConnectorStorageId::StatisticsAuroraAccountsCounter.as_u8(),
        0x4
    );
    assert_eq!(EthConnectorStorageId::FungibleTokenMetadata.as_u8(), 0x5);
}

#[test]
fn bytes_to_key_prepends_version_and_namespace() {
    assert_eq!(
        bytes_to_key(KeyPrefix::Config, b"owner"),
        vec![0x7, 0x0, b'o', b'w', b'n', b'e', b'r']
    );
    assert_eq!(bytes_to_key(KeyPrefix::Erc20Nep141Map, &[]), vec![0x7, 0x9]);
}

#[test]
fn address_to_key_layout() {
    let address = sample_address();
    let key = address_to_key(KeyPrefix::Balance, &address);
    assert_eq!(key.len(), 22);
    assert_eq!(key[0], 0x7);
    assert_eq!(key[1], 0x2);
    assert_eq!(&key[2..22], address.as_bytes());
    assert_eq!(
        key.to_vec(),
        bytes_to_key(KeyPrefix::Balance, address.as_bytes())
    );
}

#[test]
fn contract_blob_storage_key_layout() {
    let address = sample_address();
    let key = contract_blob_storage_key(&address, 0x0403_0201);
    assert_eq!(key.len(), 26);
    assert_eq!(key[0], 0x7);
    assert_eq!(key[1], 0x4);
    assert_eq!(&key[2..22], address.as_bytes());
    assert_eq!(&key[22..26], &[0x01, 0x02, 0x03, 0x04]);
}

#[test]
fn contract_blob_storage_key_generation_edges() {
    let address = Address::from_array([1u8; 20]);
    assert_eq!(&contract_blob_storage_key(&address, 0)[22..26], &[0, 0, 0, 0]);
    assert_eq!(
        &contract_blob_storage_key(&address, u32::MAX)[22..26],
        &[0xff, 0xff, 0xff, 0xff]
    );
    assert_eq!(
        &contract_blob_storage_key(&address, 256)[22..26],
        &256u32.to_le_bytes()
    );
}

#[test]
fn contract_blob_storage_keys_do_not_collide() {
    let a = Address::from_array([1u8; 20]);
    let b = Address::from_array([2u8; 20]);
    assert_ne!(
        contract_blob_storage_key(&a, 0),
        contract_blob_storage_key(&a, 1)
    );
    assert_ne!(
        contract_blob_storage_key(&a, 0),
        contract_blob_storage_key(&b, 0)
    );
    assert_ne!(
        contract_blob_storage_key(&a, 1),
        contract_blob_storage_key(&a, 1 << 8)
    );
    assert_eq!(
        contract_blob_storage_key(&a, 7),
        contract_blob_storage_key(&Address::from_array([1u8; 20]), 7)
    );
}

#[test]
fn bumping_the_generation_moves_every_key() {
    let a = Address::from_array([9u8; 20]);
    let mut seen: Vec<[u8; 26]> = Vec::new();
    for generation in 0u32..64 {
        let key = contract_blob_storage_key(&a, generation);
        assert!(!seen.contains(&key));
        seen.push(key);
    }
}
