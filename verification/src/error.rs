//! Errors of resolving an iroh node via AT Protocol.

use vstd::prelude::*;

use crate::node::{endpoint_id_from_str, key_error_text_of, parse_public_key};

verus! {

/// Calls `Display` of `iroh::KeyParsingError`. The text depends on which decoding
/// failed, a detail the declared error type keeps inside, so no clause describes it;
/// it serves errors whose `value` is, after all, a key.
#[verifier::external_body]
fn key_error_text(e: &iroh::KeyParsingError) -> String {
    e.to_string()
}

/// Errors that can occur when resolving an iroh node via AT Protocol.
#[derive(Debug)]
pub enum Error {
    /// Failed to resolve the AT Protocol identity (handle or DID); holds the
    /// description of the identity resolver's error.
    Identity(String),
    /// The DID document does not contain an `IrohNode` service entry.
    NoIrohService(String),
    /// The `IrohNode` service endpoint is malformed or cannot be parsed.
    InvalidServiceEndpoint { endpoint: String, reason: String },
    /// Failed to parse the iroh node ID from the service endpoint.
    InvalidNodeId { value: String, source: iroh::KeyParsingError },
    /// The connection to a remote resolver failed; holds the failure's description.
    Iroh(String),
    /// A protocol message could not be encoded or decoded; holds the codec's description.
    Json(String),
    /// The remote resolver answered with an error message.
    Remote(String),
}

impl Error {
    /// `m` is the description of this error. For an invalid node id the description ends
    /// in the key parser's message for `value`; when `value` is a key after all (an error
    /// built by hand), it ends in the text of `source`, which is left open.
    pub open spec fn message_matches(self, m: Seq<char>) -> bool {
        match self {
            Error::Identity(description) => m == "AT Protocol identity error: "@
                + description@,
            Error::NoIrohService(identity) => m
                == "no `IrohNode` service found in DID document for `"@ + identity@ + "`"@,
            Error::InvalidServiceEndpoint { endpoint, reason } => m
                == "invalid IrohNode service endpoint `"@ + endpoint@ + "`: "@ + reason@,
            Error::InvalidNodeId { value, .. } => {
                let prefix = "invalid iroh node ID `"@ + value@ + "`: "@;
                if endpoint_id_from_str(value@) is None {
                    m == prefix + key_error_text_of(value@)
                } else {
                    m.len() >= prefix.len() && m.subrange(0, prefix.len() as int) == prefix
                }
            },
            Error::Iroh(description) => m == "iroh connection error: "@ + description@,
            Error::Json(description) => m == "JSON error: "@ + description@,
            Error::Remote(message) => m == "remote resolver error: "@ + message@,
        }
    }

    /// The human-readable description of the error.
    pub fn message(&self) -> (m: String)
        ensures
            self.message_matches(m@),
    {
        let mut m = String::new();
        match self {
            Error::Identity(description) => {
                m.append("AT Protocol identity error: ");
                m.append(description.as_str());
            },
            Error::NoIrohService(identity) => {
                m.append("no `IrohNode` service found in DID document for `");
                m.append(identity.as_str());
                m.append("`");
            },
            Error::InvalidServiceEndpoint { endpoint, reason } => {
                m.append("invalid IrohNode service endpoint `");
                m.append(endpoint.as_str());
                m.append("`: ");
                m.append(reason.as_str());
            },
            Error::InvalidNodeId { value, source } => {
                m.append("invalid iroh node ID `");
                m.append(value.as_str());
                m.append("`: ");
                let ghost prefix = m@;
                match parse_public_key(value.as_str()) {
                    Err((_, text)) => m.append(text.as_str()),
                    Ok(_) => m.append(key_error_text(source).as_str()),
                }
                assert(m@.subrange(0, prefix.len() as int) =~= prefix);
            },
            Error::Iroh(description) => {
                m.append("iroh connection error: ");
                m.append(description.as_str());
            },
            Error::Json(description) => {
                m.append("JSON error: ");
                m.append(description.as_str());
            },
            Error::Remote(message) => {
                m.append("remote resolver error: ");
                m.append(message.as_str());
            },
        }
        m
    }
}

} // verus!
