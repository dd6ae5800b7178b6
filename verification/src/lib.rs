//! # iroh-atproto
//!
//! Resolve [iroh] nodes via [AT Protocol] DID documents.
//!
//! Given an AT Protocol handle (e.g. `alice.bsky.social`) or DID (e.g. `did:plc:xyz`),
//! the DID document is fetched through the standard AT Protocol resolution pipeline and
//! the iroh node information is read from a well-known service entry:
//!
//! ```json
//! {
//!   "id": "#iroh",
//!   "type": "IrohNode",
//!   "serviceEndpoint": "iroh://<node-id>"
//! }
//! ```
//!
//! `<node-id>` is the lowercase hex-encoded iroh public key (64 hex characters). An
//! optional relay URL can be appended as `?relay=<percent-encoded-relay-url>`.
//!
//! This crate holds the verified parts: the endpoint format, the DID document reading,
//! the decisions of an address lookup, and the messages of the resolution protocol.
//!
//! [iroh]: https://iroh.computer
//! [AT Protocol]: https://atproto.com

pub mod did;
pub mod dns;
pub mod error;
pub mod lookup;
pub mod node;
pub mod percent;
pub mod proto;
pub mod service;
pub mod text;

pub use did::{extract_iroh_addr, DidDocument, Service};
pub use error::Error;
pub use lookup::{event_awaited, AtProtoLookup, AtProtoResolverConfig, LookupAction, LookupEvent, LookupFailure, LookupState};
pub use node::{IrohAddr, NodeId, RelayUrl};
pub use percent::{percent_decode, percent_encode};
pub use proto::{AtprotoProtocolConfig, ResolveRequest, ResolveResponse, ResolvedIdentity};
pub use service::{format_service_endpoint, parse_service_endpoint, IROH_SERVICE_TYPE, SERVICE_ID};
