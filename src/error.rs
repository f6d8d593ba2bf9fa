use vstd::prelude::*;

verus! {

/// Why a call to the service failed. Each failed call gives exactly one.
#[derive(Debug, PartialEq, Eq)]
pub enum DnsApiError {
    /// The service answered with status code 1; carries the code and its message.
    BadRequest((i32, String)),
    /// The service answered with a nonzero code other than 1; carries the code
    /// and its message.
    UnknownErrorCode((i32, String)),
    /// The request could not be made, or its reply could not be decoded;
    /// carries the transport's description of the failure.
    Transport(String),
    /// A successful update reply whose data is not an IPv4 address; carries
    /// that data.
    AddressParse(String),
    /// A successful registration reply without a token.
    MissingToken,
}

} // verus!
