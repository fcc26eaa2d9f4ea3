use xcc_bridge::error::BridgeError;

#[test]
fn each_error_has_a_name_of_its_own() {
    assert_eq!(BridgeError::MalformedInput.as_str(), "ERR_MALFORMED_INPUT");
    assert_eq!(
        BridgeError::InsufficientFunds.as_str(),
        "ERR_INSUFFICIENT_FUNDS"
    );
    assert_eq!(
        BridgeError::AlreadyInitialized.as_str(),
        "ERR_ALREADY_INITIALIZED"
    );
    assert_eq!(BridgeError::NotFound.as_str(), "ERR_NOT_FOUND");
}
