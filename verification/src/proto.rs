//! The resolution protocol spoken between iroh peers, and its configuration.

use vstd::prelude::*;

use crate::error::Error;

verus! {

/// The PLC directory that `atrium_identity` uses unless told otherwise.
pub open spec fn default_plc_directory_url_text() -> Seq<char> {
    "https://plc.directory/"@
}

/// Reads `atrium_identity::did::DEFAULT_PLC_DIRECTORY_URL`, whose source value is
/// `https://plc.directory/`.
#[verifier::external_body]
pub(crate) fn default_plc_directory_url() -> (url: String)
    ensures
        url@ == default_plc_directory_url_text(),
{
    atrium_identity::did::DEFAULT_PLC_DIRECTORY_URL.to_string()
}

/// The largest request or response, in bytes, that either side reads from a stream.
pub const MAX_MESSAGE_LEN: usize = 65536;

/// A resolution request sent by the client.
#[derive(Clone, Debug, PartialEq, Eq)]
pub enum ResolveRequest {
    /// Resolve an AT Protocol handle (e.g. `alice.bsky.social`) to a DID and PDS endpoint.
    Handle {
        /// The handle to resolve.
        handle: String,
    },
    /// Resolve a DID (e.g. `did:plc:xyz`) to a PDS endpoint.
    Did {
        /// The DID to resolve.
        did: String,
    },
}

/// A resolution response returned by the server.
#[derive(Clone, Debug, PartialEq, Eq)]
pub enum ResolveResponse {
    /// Successful resolution result.
    Resolved {
        /// The resolved DID.
        did: String,
        /// The PDS endpoint URL for the DID.
        pds: String,
    },
    /// An error occurred during resolution.
    Error {
        /// A human-readable error message.
        message: String,
    },
}

/// The resolved AT Protocol identity returned by the client.
#[derive(Clone, Debug, PartialEq, Eq)]
pub struct ResolvedIdentity {
    /// The DID for the resolved identity.
    pub did: String,
    /// The PDS endpoint URL for the DID.
    pub pds: String,
}

impl ResolveRequest {
    /// The request that asks for a handle to be resolved.
    pub fn for_handle(handle: &str) -> (r: ResolveRequest)
        ensures
            r matches ResolveRequest::Handle { handle: h } && h@ == handle@,
    {
        ResolveRequest::Handle { handle: handle.to_owned() }
    }

    /// The request that asks for a DID to be resolved.
    pub fn for_did(did: &str) -> (r: ResolveRequest)
        ensures
            r matches ResolveRequest::Did { did: d } && d@ == did@,
    {
        ResolveRequest::Did { did: did.to_owned() }
    }

    /// The identifier the server hands to its identity resolver: the handle or the DID.
    pub fn identifier(&self) -> (s: String)
        ensures
            s@ == match self {
                ResolveRequest::Handle { handle } => handle@,
                ResolveRequest::Did { did } => did@,
            },
    {
        match self {
            ResolveRequest::Handle { handle } => handle.clone(),
            ResolveRequest::Did { did } => did.clone(),
        }
    }
}

/// `r` is the response owed for the outcome of handling a request.
pub open spec fn served_response(outcome: Result<ResolvedIdentity, String>, r: ResolveResponse) -> bool {
    match outcome {
        Ok(identity) => r matches ResolveResponse::Resolved { did, pds } && did@ == identity.did@
            && pds@ == identity.pds@,
        Err(description) => r matches ResolveResponse::Error { message } && message@
            == description@,
    }
}

/// `r` is what a client owes for a server's response.
pub open spec fn received_identity(response: ResolveResponse, r: Result<ResolvedIdentity, Error>) -> bool {
    match response {
        ResolveResponse::Resolved { did, pds } => r matches Ok(identity) && identity.did@ == did@
            && identity.pds@ == pds@,
        ResolveResponse::Error { message } => r matches Err(Error::Remote(m)) && m@ == message@,
    }
}

/// What a server resolves reaches the client unchanged, and what goes wrong on the server
/// reaches the client as [`Error::Remote`] with the server's description.
pub proof fn lemma_served_then_received(
    outcome: Result<ResolvedIdentity, String>,
    response: ResolveResponse,
    received: Result<ResolvedIdentity, Error>,
)
    requires
        served_response(outcome, response),
        received_identity(response, received),
    ensures
        match outcome {
            Ok(identity) => received matches Ok(got) && got.did@ == identity.did@ && got.pds@
                == identity.pds@,
            Err(description) => received matches Err(Error::Remote(m)) && m@ == description@,
        },
{
}

/// The response a server sends for the outcome of handling a request: the resolved
/// DID and PDS, or the description of what went wrong.
pub fn response_for_outcome(outcome: Result<ResolvedIdentity, String>) -> (r: ResolveResponse)
    ensures
        served_response(outcome, r),
{
    match outcome {
        Ok(identity) => ResolveResponse::Resolved { did: identity.did, pds: identity.pds },
        Err(description) => ResolveResponse::Error { message: description },
    }
}

/// What a client makes of a server's response: the resolved identity, or the server's
/// error message as [`Error::Remote`].
pub fn identity_from_response(response: ResolveResponse) -> (r: Result<ResolvedIdentity, Error>)
    ensures
        received_identity(response, r),
{
    match response {
        ResolveResponse::Resolved { did, pds } => Ok(ResolvedIdentity { did, pds }),
        ResolveResponse::Error { message } => Err(Error::Remote(message)),
    }
}

/// The JSON error response a server sends when its response cannot be encoded:
/// `{"status":"error","message":"<description>"}`, the description written as it is.
pub fn fallback_error_json(description: &str) -> (s: String)
    ensures
        s@ == "{\"status\":\"error\",\"message\":\""@ + description@ + "\"}"@,
{
    let mut s = String::new();
    s.append("{\"status\":\"error\",\"message\":\"");
    s.append(description);
    s.append("\"}");
    s
}

/// Configuration for the protocol handler that serves resolution requests.
#[derive(Clone, Debug, PartialEq, Eq)]
pub struct AtprotoProtocolConfig {
    /// URL of the PLC directory to use for `did:plc` resolution.
    ///
    /// Defaults to `https://plc.directory/`.
    pub plc_directory_url: String,
}

impl Default for AtprotoProtocolConfig {
    fn default() -> (config: Self)
        ensures
            config.plc_directory_url@ == default_plc_directory_url_text(),
    {
        AtprotoProtocolConfig { plc_directory_url: default_plc_directory_url() }
    }
}

} // verus!
