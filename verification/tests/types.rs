use xcc_bridge::types::{Address, ADDRESS_LEN};

#[test]
fn an_address_keeps_its_bytes() {
    let mut raw = [0u8; 20];
    raw[0] = 0xde;
    raw[19] = 0xad;
    let address = Address::from_array(raw);
    assert_eq!(address.as_bytes(), &raw);
    assert_eq!(address.as_bytes().len(), ADDRESS_LEN);
}

#[test]
fn same_as_compares_all_bytes() {
    let a = Address::from_array([1u8; 20]);
    let b = Address::from_array([1u8; 20]);
    let mut raw = [1u8; 20];
    raw[19] = 2;
    let c = Address::from_array(raw);
    let mut raw = [1u8; 20];
    raw[0] = 0;
    let d = Address::from_array(raw);
    assert!(a.same_as(&b));
    assert!(!a.same_as(&c));
    assert!(!a.same_as(&d));
    assert_eq!(a, b);
    assert_ne!(a, c);
}

#[test]
fn encode_is_lower_case_hexadecimal() {
    assert_eq!(
        Address::from_array([0u8; 20]).encode(),
        "0000000000000000000000000000000000000000"
    );
    assert_eq!(
        Address::from_array([0xff; 20]).encode(),
        "ffffffffffffffffffffffffffffffffffffffff"
    );
    let mut raw = [0u8; 20];
    for (i, b) in raw.iter_mut().enumerate() {
        *b = (i as u8) * 13 + 1;
    }
    let expected: String = raw.iter().map(|b| format!("{:02x}", b)).collect();
    assert_eq!(Address::from_array(raw).encode(), expected);
    assert_eq!(Address::from_array(raw).encode().len(), 40);
}
