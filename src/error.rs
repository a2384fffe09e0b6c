//! The errors a caller of the session engine can see.
use vstd::prelude::*;

use crate::interface;

verus! {

/// Why a request to the chassis did not succeed.
#[derive(Debug, Clone, Copy, PartialEq, Eq, Structural)]
pub enum Error {
    /// The address is not a valid `host:port` socket address.
    AddressParse,
    /// Opening, reading or writing the socket failed, or the peer closed it.
    Io,
    /// A blocking socket operation ran out of time.
    Timeout,
    /// The chassis refused the login or the ownership claim.
    Authentication,
    /// A reply line is malformed, names an unknown state or a bad id.
    ProtocolParse,
    /// A reservation change was answered with something other than `<OK>`.
    NotAcknowledged,
    /// A request was made after the session had already ended.
    InternalConsistency,
}

impl From<interface::Error> for Error {
    fn from(value: interface::Error) -> (r: Error)
        ensures
            r == Error::ProtocolParse,
    {
        Error::ProtocolParse
    }
}

impl vstd::std_specs::convert::FromSpecImpl<interface::Error> for Error {
    open spec fn obeys_from_spec() -> bool {
        true
    }

    open spec fn from_spec(v: interface::Error) -> Error {
        Error::ProtocolParse
    }
}

} // verus!
