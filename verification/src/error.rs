//! Error taxonomy: a closed set of numeric codes and an error value carrying
//! code, message, and optional detail text.

use vstd::prelude::*;

verus! {

/// Classes of failure, each with a fixed numeric code: the low codes follow
/// the container-network protocol specification, codes from one hundred up
/// are specific to this plugin.
#[derive(Clone, Copy, Debug, PartialEq, Eq, Structural)]
pub enum CniErrorCode {
    /// 1: incompatible protocol version
    IncompatibleVersion,
    /// 2: unsupported field in network configuration
    UnsupportedField,
    /// 3: container unknown or does not exist
    UnknownContainer,
    /// 4: invalid necessary environment variables
    InvalidEnvironmentVariables,
    /// 5: I/O failure
    IoFailure,
    /// 6: failed to decode content
    DecodingFailure,
    /// 7: invalid network config
    InvalidNetworkConfig,
    /// 11: try again later
    TryAgainLater,
    /// 100: bridge creation failed
    BridgeCreationFailed,
    /// 101: veth creation failed
    VethCreationFailed,
    /// 102: address allocation failure
    IpamFailure,
    /// 103: namespace operation failed
    NamespaceFailure,
    /// 104: route configuration failed
    RouteFailure,
}

impl CniErrorCode {
    /// The numeric code of this error class.
    pub open spec fn spec_value(self) -> u32 {
        match self {
            CniErrorCode::IncompatibleVersion => 1,
            CniErrorCode::UnsupportedField => 2,
            CniErrorCode::UnknownContainer => 3,
            CniErrorCode::InvalidEnvironmentVariables => 4,
            CniErrorCode::IoFailure => 5,
            CniErrorCode::DecodingFailure => 6,
            CniErrorCode::InvalidNetworkConfig => 7,
            CniErrorCode::TryAgainLater => 11,
            CniErrorCode::BridgeCreationFailed => 100,
            CniErrorCode::VethCreationFailed => 101,
            CniErrorCode::IpamFailure => 102,
            CniErrorCode::NamespaceFailure => 103,
            CniErrorCode::RouteFailure => 104,
        }
    }

    /// The numeric code of this error class.
    pub fn value(self) -> (r: u32)
        ensures
            r == self.spec_value(),
    {
        match self {
            CniErrorCode::IncompatibleVersion => 1,
            CniErrorCode::UnsupportedField => 2,
            CniErrorCode::UnknownContainer => 3,
            CniErrorCode::InvalidEnvironmentVariables => 4,
            CniErrorCode::IoFailure => 5,
            CniErrorCode::DecodingFailure => 6,
            CniErrorCode::InvalidNetworkConfig => 7,
            CniErrorCode::TryAgainLater => 11,
            CniErrorCode::BridgeCreationFailed => 100,
            CniErrorCode::VethCreationFailed => 101,
            CniErrorCode::IpamFailure => 102,
            CniErrorCode::NamespaceFailure => 103,
            CniErrorCode::RouteFailure => 104,
        }
    }
}

/// An error with its code, a human-readable message, and optional detail
/// text, typically the underlying failure's own words.
#[derive(Debug)]
pub struct CniError {
    code: CniErrorCode,
    msg: String,
    details: Option<String>,
}

impl CniError {
    /// The code this error carries.
    pub closed spec fn spec_code(&self) -> CniErrorCode {
        self.code
    }

    /// The message this error carries.
    pub closed spec fn spec_message(&self) -> Seq<char> {
        self.msg@
    }

    /// The detail text this error carries, if any.
    pub closed spec fn spec_details(&self) -> Option<Seq<char>> {
        match self.details {
            Some(ref d) => Some(d@),
            None => None,
        }
    }

    /// Create a new error without details.
    pub fn new(code: CniErrorCode, msg: &str) -> (r: Self)
        ensures
            r.spec_code() == code,
            r.spec_message() == msg@,
            r.spec_details() is None,
    {
        Self { code, msg: String::from_str(msg), details: None }
    }

    /// Add detail text to the error.
    pub fn with_details(self, details: &str) -> (r: Self)
        ensures
            r.spec_code() == self.spec_code(),
            r.spec_message() == self.spec_message(),
            r.spec_details() == Some(details@),
    {
        Self { code: self.code, msg: self.msg, details: Some(String::from_str(details)) }
    }

    /// Get the error code.
    pub fn code(&self) -> (r: CniErrorCode)
        ensures
            r == self.spec_code(),
    {
        self.code
    }

    /// Get the error message.
    pub fn message(&self) -> (r: &str)
        ensures
            r@ == self.spec_message(),
    {
        self.msg.as_str()
    }

    /// Get the error details.
    pub fn details(&self) -> (r: Option<&str>)
        ensures
            match r {
                Some(d) => self.spec_details() == Some(d@),
                None => self.spec_details() is None,
            },
    {
        match &self.details {
            Some(d) => Some(d.as_str()),
            None => None,
        }
    }

    /// Create an I/O error.
    pub fn io_error(msg: &str) -> (r: Self)
        ensures
            r.spec_code() == CniErrorCode::IoFailure,
            r.spec_message() == msg@,
            r.spec_details() is None,
    {
        Self::new(CniErrorCode::IoFailure, msg)
    }

    /// Create a decoding error.
    pub fn decode_error(msg: &str) -> (r: Self)
        ensures
            r.spec_code() == CniErrorCode::DecodingFailure,
            r.spec_message() == msg@,
            r.spec_details() is None,
    {
        Self::new(CniErrorCode::DecodingFailure, msg)
    }

    /// Create an invalid config error.
    pub fn config_error(msg: &str) -> (r: Self)
        ensures
            r.spec_code() == CniErrorCode::InvalidNetworkConfig,
            r.spec_message() == msg@,
            r.spec_details() is None,
    {
        Self::new(CniErrorCode::InvalidNetworkConfig, msg)
    }

    /// Create a bridge error.
    pub fn bridge_error(msg: &str) -> (r: Self)
        ensures
            r.spec_code() == CniErrorCode::BridgeCreationFailed,
            r.spec_message() == msg@,
            r.spec_details() is None,
    {
        Self::new(CniErrorCode::BridgeCreationFailed, msg)
    }

    /// Create a veth error.
    pub fn veth_error(msg: &str) -> (r: Self)
        ensures
            r.spec_code() == CniErrorCode::VethCreationFailed,
            r.spec_message() == msg@,
            r.spec_details() is None,
    {
        Self::new(CniErrorCode::VethCreationFailed, msg)
    }

    /// Create an address-allocation error.
    pub fn ipam_error(msg: &str) -> (r: Self)
        ensures
            r.spec_code() == CniErrorCode::IpamFailure,
            r.spec_message() == msg@,
            r.spec_details() is None,
    {
        Self::new(CniErrorCode::IpamFailure, msg)
    }

    /// Create a namespace error.
    pub fn namespace_error(msg: &str) -> (r: Self)
        ensures
            r.spec_code() == CniErrorCode::NamespaceFailure,
            r.spec_message() == msg@,
            r.spec_details() is None,
    {
        Self::new(CniErrorCode::NamespaceFailure, msg)
    }
}

} // verus!
