//! Client-side multiplexer for a JSON-RPC style protocol over a persistent
//! message transport.
//!
//! The crate holds the verified core of such a client: the wire codec for the
//! request/reply envelope, the correlation table that matches replies to
//! pending calls by numeric identifier, the dispatch state machine that routes
//! every inbound event, and the issuer that allocates request identifiers.
//! Establishing the connection and driving the asynchronous loops is left to
//! the surrounding application code.

use vstd::prelude::*;

pub mod codec;
pub mod dispatch;
pub mod issuer;
pub mod messages;

verus! {

/// Connection configuration: an optional API credential and the choice
/// between the production and the test network.
pub struct Deribit {
    pub credential: Option<(String, String)>,
    pub testnet: bool,
}

impl Deribit {
    /// A configuration with no credential, aimed at the production network.
    pub fn new() -> (r: Deribit)
        ensures
            r.credential is None,
            !r.testnet,
    {
        Deribit { credential: None, testnet: false }
    }

    /// A configuration carrying an API key and secret.
    pub fn with_credential(key: String, secret: String) -> (r: Deribit)
        ensures
            r.credential == Some((key, secret)),
            !r.testnet,
    {
        Deribit { credential: Some((key, secret)), testnet: false }
    }
}

impl Default for Deribit {
    fn default() -> (r: Deribit)
        ensures
            r.credential is None,
            !r.testnet,
    {
        Deribit::new()
    }
}

/// The production endpoint address.
pub open spec fn mainnet_url() -> Seq<char> {
    "wss://www.deribit.com/ws/api/v2"@
}

/// The test-network endpoint address.
pub open spec fn testnet_url() -> Seq<char> {
    "wss://test.deribit.com/ws/api/v2"@
}

/// The endpoint a configuration connects to: the test network's address
/// exactly when `testnet` is set.
pub fn ws_url(testnet: bool) -> (r: &'static str)
    ensures
        r@ == (if testnet {
            testnet_url()
        } else {
            mainnet_url()
        }),
{
    proof {
        reveal_strlit("wss://www.deribit.com/ws/api/v2");
        reveal_strlit("wss://test.deribit.com/ws/api/v2");
    }
    if testnet {
        "wss://test.deribit.com/ws/api/v2"
    } else {
        "wss://www.deribit.com/ws/api/v2"
    }
}

} // verus!
