use flatnet::error::{CniError, CniErrorCode};

#[test]
fn test_error_code_values() {
    assert_eq!(CniErrorCode::IncompatibleVersion.value(), 1);
    assert_eq!(CniErrorCode::IoFailure.value(), 5);
    assert_eq!(CniErrorCode::BridgeCreationFailed.value(), 100);
}

#[test]
fn test_error_with_details() {
    let err = CniError::new(CniErrorCode::IoFailure, "read failed").with_details(
        "permission denied",
    );

    assert_eq!(err.code(), CniErrorCode::IoFailure);
    assert_eq!(err.message(), "read failed");
    assert_eq!(err.details(), Some("permission denied"));
}

#[test]
fn test_convenience_constructors() {
    let err = CniError::io_error("failed");
    assert_eq!(err.code(), CniErrorCode::IoFailure);

    let err = CniError::bridge_error("bridge exists");
    assert_eq!(err.code(), CniErrorCode::BridgeCreationFailed);
}

#[test]
fn every_code_has_its_number() {
    assert_eq!(CniErrorCode::UnsupportedField.value(), 2);
    assert_eq!(CniErrorCode::UnknownContainer.value(), 3);
    assert_eq!(CniErrorCode::InvalidEnvironmentVariables.value(), 4);
    assert_eq!(CniErrorCode::DecodingFailure.value(), 6);
    assert_eq!(CniErrorCode::InvalidNetworkConfig.value(), 7);
    assert_eq!(CniErrorCode::TryAgainLater.value(), 11);
    assert_eq!(CniErrorCode::VethCreationFailed.value(), 101);
    assert_eq!(CniErrorCode::IpamFailure.value(), 102);
    assert_eq!(CniErrorCode::NamespaceFailure.value(), 103);
    assert_eq!(CniErrorCode::RouteFailure.value(), 104);
}

#[test]
fn every_constructor_sets_its_code() {
    assert_eq!(CniError::decode_error("x").code(), CniErrorCode::DecodingFailure);
    assert_eq!(CniError::config_error("x").code(), CniErrorCode::InvalidNetworkConfig);
    assert_eq!(CniError::veth_error("x").code(), CniErrorCode::VethCreationFailed);
    assert_eq!(CniError::ipam_error("x").code(), CniErrorCode::IpamFailure);
    assert_eq!(CniError::namespace_error("x").code(), CniErrorCode::NamespaceFailure);
    assert!(CniError::io_error("x").details().is_none());
}
