//! Core of a client-server private-messaging service: the typed packet
//! schema, a length-delimited wire codec, the per-connection session state
//! machine (handshake, authentication, active relay), the store-and-forward
//! message queue, and the cooperative-shutdown relay step logic.

use vstd::prelude::*;

pub mod clock;
pub mod codec;
pub mod config;
pub mod packet;
pub mod relay;
pub mod repo;
pub mod session;
pub mod validate;

verus! {

/// The exact version string the server accepts during the handshake.
pub open spec fn accepted_version_spec() -> Seq<char> {
    "0.1.1"@
}

/// The accepted version string, for building and checking ping replies.
pub fn accepted_client_version() -> (r: String)
    ensures
        r@ == accepted_version_spec(),
{
    String::from_str("0.1.1")
}

} // verus!
