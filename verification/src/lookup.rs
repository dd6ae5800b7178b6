//! Looking up an iroh node address through an AT Protocol identity.
//!
//! The lookup alternates between network work (resolving a handle, fetching a DID
//! document), which its caller performs, and decisions, which [`AtProtoLookup::step`]
//! makes: from the lookup's state and the outcome of the last piece of work to the next
//! state and the next piece of work.

use vstd::prelude::*;
use vstd::utf8::*;

use crate::did::{doc_services, extract_iroh_addr, first_iroh_service, full_service_id, DidDocument};
use crate::error::Error;
use crate::node::{lemma_sorted_same_set_equal, IrohAddr, NodeId};
use crate::proto::{default_plc_directory_url, default_plc_directory_url_text};
use crate::service::{parse_endpoint_spec, parse_result_matches, prefix_len_before, split_on, EndpointParse};

verus! {

/// An ASCII letter or digit.
pub open spec fn is_alnum(c: char) -> bool {
    ('a' <= c <= 'z') || ('A' <= c <= 'Z') || ('0' <= c <= '9')
}

/// A character of a DID's method-specific id (`[a-zA-Z0-9._:%-]`).
pub open spec fn is_did_id_char(c: char) -> bool {
    is_alnum(c) || c == '.' || c == '_' || c == ':' || c == '%' || c == '-'
}

/// A character that may end a DID (`[a-zA-Z0-9._-]`).
pub open spec fn is_did_last_char(c: char) -> bool {
    is_alnum(c) || c == '.' || c == '_' || c == '-'
}

/// The DID syntax of AT Protocol: `did:<method>:<id>` with a lower-case method and an
/// id of the allowed characters that does not end in `:` or `%`, at most 2048 bytes.
pub open spec fn did_syntax_ok(s: Seq<char>) -> bool {
    &&& encode_utf8(s).len() <= 2048
    &&& s.len() >= 4
    &&& s.take(4) == seq!['d', 'i', 'd', ':']
    &&& {
        let r = s.skip(4);
        let m = prefix_len_before(r, ':');
        let id = r.skip(m + 1);
        &&& 1 <= m < r.len()
        &&& forall|i: int| 0 <= i < m ==> 'a' <= #[trigger] r[i] <= 'z'
        &&& id.len() >= 1
        &&& forall|i: int| 0 <= i < id.len() ==> is_did_id_char(#[trigger] id[i])
        &&& is_did_last_char(id.last())
    }
}

/// The message of `atrium_api`'s DID parser for a text that is not a DID.
pub open spec fn did_error_text(s: Seq<char>) -> Seq<char> {
    if encode_utf8(s).len() > 2048 {
        "DID too long"@
    } else {
        "Invalid DID"@
    }
}

/// A label of a handle: 1 to 63 letters, digits and hyphens, starting and ending with a
/// letter or digit.
pub open spec fn handle_label_ok(l: Seq<char>) -> bool {
    &&& 1 <= l.len() <= 63
    &&& is_alnum(l[0])
    &&& is_alnum(l.last())
    &&& forall|i: int| 0 <= i < l.len() ==> is_alnum(#[trigger] l[i]) || l[i] == '-'
}

/// The handle syntax of AT Protocol: at least two labels joined by `.`, the last one
/// starting with a letter, at most 253 bytes.
pub open spec fn handle_syntax_ok(s: Seq<char>) -> bool {
    let labels = split_on(s, '.');
    &&& encode_utf8(s).len() <= 253
    &&& labels.len() >= 2
    &&& forall|i: int| 0 <= i < labels.len() ==> handle_label_ok(#[trigger] labels[i])
    &&& ('a' <= labels.last()[0] <= 'z' || 'A' <= labels.last()[0] <= 'Z')
}

/// The message of `atrium_api`'s handle parser for a text that is not a handle.
pub open spec fn handle_error_text(s: Seq<char>) -> Seq<char> {
    if encode_utf8(s).len() > 253 {
        "Handle too long"@
    } else {
        "Invalid handle"@
    }
}

/// What an AT Protocol identifier turned out to be.
pub enum IdentifierKind {
    Did(String),
    Handle(String),
}

/// Calls `atrium_api::types::string::AtIdentifier::from_str` (through `str::parse`), which
/// tries `Did::new` and then `Handle::new`. Their source checks the byte length, then
/// matches the texts against `^did:[a-z]+:[a-zA-Z0-9._:%-]*[a-zA-Z0-9._-]$` and
/// `^([a-zA-Z0-9]([a-zA-Z0-9-]{0,61}[a-zA-Z0-9])?\.)+[a-zA-Z]([a-zA-Z0-9-]{0,61}[a-zA-Z0-9])?$`,
/// keeps the text as it is, and otherwise fails with the handle parser's message.
#[verifier::external_body]
fn parse_at_identifier(s: &str) -> (r: Result<IdentifierKind, String>)
    ensures
        match r {
            Ok(IdentifierKind::Did(d)) => did_syntax_ok(s@) && d@ == s@,
            Ok(IdentifierKind::Handle(h)) => !did_syntax_ok(s@) && handle_syntax_ok(s@) && h@
                == s@,
            Err(m) => !did_syntax_ok(s@) && !handle_syntax_ok(s@) && m@ == handle_error_text(s@),
        },
{
    match s.parse::<atrium_api::types::string::AtIdentifier>() {
        Ok(atrium_api::types::string::AtIdentifier::Did(did)) => Ok(
            IdentifierKind::Did(did.as_str().to_string()),
        ),
        Ok(atrium_api::types::string::AtIdentifier::Handle(handle)) => Ok(
            IdentifierKind::Handle(handle.as_str().to_string()),
        ),
        Err(e) => Err(e.to_string()),
    }
}

/// Calls `atrium_api::types::string::Did::from_str` (through `str::parse`). Its source
/// checks the byte length and the DID pattern (see `did_syntax_ok`), keeps the text as it
/// is, and otherwise fails with `DID too long` or `Invalid DID`.
#[verifier::external_body]
fn parse_did(s: &str) -> (r: Result<String, String>)
    ensures
        match r {
            Ok(d) => did_syntax_ok(s@) && d@ == s@,
            Err(m) => !did_syntax_ok(s@) && m@ == did_error_text(s@),
        },
{
    match s.parse::<atrium_api::types::string::Did>() {
        Ok(did) => Ok(did.as_str().to_string()),
        Err(e) => Err(e.to_string()),
    }
}

/// Configuration of an AT Protocol address lookup.
#[derive(Clone, Debug, PartialEq, Eq)]
pub struct AtProtoResolverConfig {
    /// The AT Protocol handle or DID whose DID document is looked up.
    pub at_identifier: String,
    /// URL of the PLC directory to use for `did:plc` resolution.
    ///
    /// Defaults to `https://plc.directory/`.
    pub plc_directory_url: String,
}

impl AtProtoResolverConfig {
    /// Creates a new config for the given AT Protocol handle or DID.
    pub fn new(at_identifier: String) -> (config: Self)
        ensures
            config.at_identifier == at_identifier,
            config.plc_directory_url@ == default_plc_directory_url_text(),
    {
        AtProtoResolverConfig { at_identifier, plc_directory_url: default_plc_directory_url() }
    }
}

/// Where a lookup stands.
#[derive(Clone, Copy, Debug, PartialEq, Eq)]
pub enum LookupState {
    /// Nothing has happened yet.
    Start,
    /// Waiting for a handle to be resolved to a DID.
    AwaitingHandle,
    /// Waiting for a DID document.
    AwaitingDocument,
    /// The lookup has its answer.
    Finished,
}

/// The outcome of the last piece of work.
pub enum LookupEvent {
    /// The lookup is started.
    Begin,
    /// The handle resolved to this DID, or failed with this description.
    HandleResolved(Result<String, String>),
    /// The DID document was fetched, or fetching failed with this description.
    DocumentFetched(Result<DidDocument, String>),
}

/// Why a lookup gave no address.
#[derive(Debug)]
pub enum LookupFailure {
    /// The configured identifier is neither a DID nor a handle (the parser's message).
    InvalidIdentifier(String),
    /// Resolving the handle or fetching the document failed (the failure's description).
    Identity(String),
    /// A DID to look up is not a DID.
    InvalidDid { did: String, reason: String },
    /// The document has no usable iroh entry.
    Document(Error),
    /// The document names another node than the one asked for.
    NoResults,
}

/// The next piece of work.
pub enum LookupAction {
    /// Resolve this handle to a DID.
    ResolveHandle(String),
    /// Fetch the DID document of this DID.
    FetchDocument(String),
    /// The lookup is over, with this answer.
    Finish(Result<IrohAddr, LookupFailure>),
}

/// An address lookup of one iroh node through one AT Protocol identity.
pub struct AtProtoLookup {
    /// The handle or DID whose DID document is consulted.
    pub at_identifier: String,
    /// The node whose address is asked for.
    pub endpoint_id: NodeId,
}

/// How far a lookup has come: every step takes it further.
pub open spec fn state_rank(state: LookupState) -> int {
    match state {
        LookupState::Start => 0,
        LookupState::AwaitingHandle => 1,
        LookupState::AwaitingDocument => 2,
        LookupState::Finished => 3,
    }
}

/// The action is the work that the state waits for.
pub open spec fn action_fits(state: LookupState, action: LookupAction) -> bool {
    match action {
        LookupAction::ResolveHandle(_) => state == LookupState::AwaitingHandle,
        LookupAction::FetchDocument(_) => state == LookupState::AwaitingDocument,
        LookupAction::Finish(_) => state == LookupState::Finished,
    }
}

/// The event is one the state waits for.
pub open spec fn event_fits(state: LookupState, event: LookupEvent) -> bool {
    match (state, event) {
        (LookupState::Start, LookupEvent::Begin) => true,
        (LookupState::AwaitingHandle, LookupEvent::HandleResolved(_)) => true,
        (LookupState::AwaitingDocument, LookupEvent::DocumentFetched(_)) => true,
        _ => false,
    }
}

/// The step owed once a DID is known: fetch its document when it is a DID, else finish.
pub open spec fn did_step(did: Seq<char>, r: (LookupState, LookupAction)) -> bool {
    if did_syntax_ok(did) {
        r.0 == LookupState::AwaitingDocument && (r.1 matches LookupAction::FetchDocument(d)
            && d@ == did)
    } else {
        r.0 == LookupState::Finished && (r.1 matches LookupAction::Finish(
            Err(LookupFailure::InvalidDid { did: d, reason }),
        ) && d@ == did && reason@ == did_error_text(did))
    }
}

/// The step owed at the start, from the configured identifier.
pub open spec fn begin_step(at_identifier: Seq<char>, r: (LookupState, LookupAction)) -> bool {
    if did_syntax_ok(at_identifier) {
        did_step(at_identifier, r)
    } else if handle_syntax_ok(at_identifier) {
        r.0 == LookupState::AwaitingHandle && (r.1 matches LookupAction::ResolveHandle(h) && h@
            == at_identifier)
    } else {
        r.0 == LookupState::Finished && (r.1 matches LookupAction::Finish(
            Err(LookupFailure::InvalidIdentifier(m)),
        ) && m@ == handle_error_text(at_identifier))
    }
}

/// The answer owed for a fetched document.
pub open spec fn document_answer(
    doc: DidDocument,
    at_identifier: Seq<char>,
    endpoint_id: Seq<u8>,
    answer: Result<IrohAddr, LookupFailure>,
) -> bool {
    match first_iroh_service(doc_services(doc), full_service_id(doc.id@)) {
        None => answer matches Err(LookupFailure::Document(Error::NoIrohService(name))) && name@
            == at_identifier,
        Some(k) => {
            let text = doc_services(doc)[k].service_endpoint@;
            match parse_endpoint_spec(text) {
                EndpointParse::Parsed(id, relays) => if id == endpoint_id {
                    answer matches Ok(a) && a.id_bytes() == id && a.relay_texts().to_set()
                        == relays && a.wf()
                } else {
                    answer matches Err(LookupFailure::NoResults)
                },
                _ => answer matches Err(LookupFailure::Document(e)) && parse_result_matches(
                    text,
                    Err(e),
                ),
            }
        },
    }
}

/// Calls `Display` of `atrium_identity::Error::AtIdentifier`, whose source declares the
/// text `invalid at identifier: {0}`.
#[verifier::external_body]
fn at_identifier_error_text(message: String) -> (t: String)
    ensures
        t@ == "invalid at identifier: "@ + message@,
{
    atrium_identity::Error::AtIdentifier(message).to_string()
}

/// The description handed on for a failure: the identity resolver's text for an
/// identifier that is neither a DID nor a handle, the failure's own description, the
/// DID and the parser's reason, or the document error's message. A lookup that found
/// another node than the one asked for has no description: it has no results.
pub open spec fn failure_reason(failure: LookupFailure, r: Option<String>) -> bool {
    match failure {
        LookupFailure::InvalidIdentifier(m) => r matches Some(t) && t@ == "invalid at identifier: "@
            + m@,
        LookupFailure::Identity(d) => r matches Some(t) && t@ == d@,
        LookupFailure::InvalidDid { did, reason } => r matches Some(t) && t@ == "invalid DID `"@
            + did@ + "`: "@ + reason@,
        LookupFailure::Document(e) => r matches Some(t) && e.message_matches(t@),
        LookupFailure::NoResults => r is None,
    }
}

impl LookupFailure {
    /// The description of the failure, or `None` when the lookup simply has no results.
    pub fn reason(&self) -> (r: Option<String>)
        ensures
            failure_reason(*self, r),
    {
        match self {
            LookupFailure::InvalidIdentifier(m) => Some(at_identifier_error_text(m.clone())),
            LookupFailure::Identity(d) => Some(d.clone()),
            LookupFailure::InvalidDid { did, reason } => {
                let mut t = String::new();
                t.append("invalid DID `");
                t.append(did.as_str());
                t.append("`: ");
                t.append(reason.as_str());
                Some(t)
            },
            LookupFailure::Document(e) => Some(e.message()),
            LookupFailure::NoResults => None,
        }
    }
}

/// Whether `event` is the outcome that a lookup in `state` waits for.
pub fn event_awaited(state: LookupState, event: &LookupEvent) -> (b: bool)
    ensures
        b == event_fits(state, *event),
{
    match (state, event) {
        (LookupState::Start, LookupEvent::Begin) => true,
        (LookupState::AwaitingHandle, LookupEvent::HandleResolved(_)) => true,
        (LookupState::AwaitingDocument, LookupEvent::DocumentFetched(_)) => true,
        _ => false,
    }
}

/// A lookup that has fetched the DID document answers with the address that the
/// document's iroh entry parses to. When the first `IrohNode` entry's `serviceEndpoint`
/// parses (as `parse_service_endpoint` does) to `parsed`, the answer `step` gives for the
/// document is `parsed` itself, its relays included, if `parsed` is the node asked for,
/// and "no results" otherwise.
pub proof fn lemma_answer_is_parsed_entry(
    doc: DidDocument,
    at_identifier: Seq<char>,
    endpoint_id: Seq<u8>,
    answer: Result<IrohAddr, LookupFailure>,
    k: int,
    parsed: IrohAddr,
)
    requires
        document_answer(doc, at_identifier, endpoint_id, answer),
        first_iroh_service(doc_services(doc), full_service_id(doc.id@)) == Some(k),
        parse_result_matches(doc_services(doc)[k].service_endpoint@, Ok(parsed)),
    ensures
        parsed.id_bytes() == endpoint_id ==> (answer matches Ok(a) && a.id_bytes()
            == parsed.id_bytes() && a.relay_texts() == parsed.relay_texts()),
        parsed.id_bytes() != endpoint_id ==> (answer matches Err(LookupFailure::NoResults)),
{
    if parsed.id_bytes() == endpoint_id {
        let a = answer->Ok_0;
        lemma_sorted_same_set_equal(a.relay_texts(), parsed.relay_texts());
    }
}

/// Whatever the work that a step asks for comes to, its outcome is awaited in the state
/// the step leads to: any resolved or failed handle after `ResolveHandle`, any fetched
/// or failed document after `FetchDocument`.
pub proof fn lemma_outcomes_awaited(
    state: LookupState,
    action: LookupAction,
    handle: Result<String, String>,
    document: Result<DidDocument, String>,
)
    requires
        action_fits(state, action),
    ensures
        action is ResolveHandle ==> event_fits(state, LookupEvent::HandleResolved(handle)),
        action is FetchDocument ==> event_fits(state, LookupEvent::DocumentFetched(document)),
        action is Finish ==> !event_fits(state, LookupEvent::HandleResolved(handle))
            && !event_fits(state, LookupEvent::DocumentFetched(document)),
{
}

impl AtProtoLookup {
    /// A lookup of `endpoint_id` through the identity in `config`.
    pub fn new(config: &AtProtoResolverConfig, endpoint_id: NodeId) -> (l: AtProtoLookup)
        ensures
            l.at_identifier == config.at_identifier,
            l.endpoint_id == endpoint_id,
    {
        AtProtoLookup { at_identifier: config.at_identifier.clone(), endpoint_id }
    }

    fn after_did(did: String) -> (r: (LookupState, LookupAction))
        ensures
            did_step(did@, r),
    {
        match parse_did(did.as_str()) {
            Ok(valid) => (LookupState::AwaitingDocument, LookupAction::FetchDocument(valid)),
            Err(reason) => (
                LookupState::Finished,
                LookupAction::Finish(Err(LookupFailure::InvalidDid { did, reason })),
            ),
        }
    }

    /// Decides the next state and piece of work from the current state and the outcome
    /// of the last piece of work.
    pub fn step(&self, state: LookupState, event: LookupEvent) -> (r: (LookupState, LookupAction))
        requires
            event_fits(state, event),
        ensures
            state_rank(state) < state_rank(r.0),
            action_fits(r.0, r.1),
            match event {
                LookupEvent::Begin => begin_step(self.at_identifier@, r),
                LookupEvent::HandleResolved(Ok(did)) => did_step(did@, r),
                LookupEvent::HandleResolved(Err(d)) => r.0 == LookupState::Finished && (
                r.1 matches LookupAction::Finish(Err(LookupFailure::Identity(m))) && m@ == d@),
                LookupEvent::DocumentFetched(Ok(doc)) => r.0 == LookupState::Finished && (
                r.1 matches LookupAction::Finish(answer) && document_answer(
                    doc,
                    self.at_identifier@,
                    self.endpoint_id.bytes(),
                    answer,
                )),
                LookupEvent::DocumentFetched(Err(d)) => r.0 == LookupState::Finished && (
                r.1 matches LookupAction::Finish(Err(LookupFailure::Identity(m))) && m@ == d@),
            },
    {
        match event {
            LookupEvent::Begin => match parse_at_identifier(self.at_identifier.as_str()) {
                Ok(IdentifierKind::Did(did)) => Self::after_did(did),
                Ok(IdentifierKind::Handle(handle)) => (
                    LookupState::AwaitingHandle,
                    LookupAction::ResolveHandle(handle),
                ),
                Err(message) => (
                    LookupState::Finished,
                    LookupAction::Finish(Err(LookupFailure::InvalidIdentifier(message))),
                ),
            },
            LookupEvent::HandleResolved(Ok(did)) => Self::after_did(did),
            LookupEvent::HandleResolved(Err(description)) => (
                LookupState::Finished,
                LookupAction::Finish(Err(LookupFailure::Identity(description))),
            ),
            LookupEvent::DocumentFetched(Ok(doc)) => {
                let answer = match extract_iroh_addr(&doc, self.at_identifier.as_str()) {
                    Ok(addr) => if addr.id().same_as(&self.endpoint_id) {
                        Ok(addr)
                    } else {
                        Err(LookupFailure::NoResults)
                    },
                    Err(e) => Err(LookupFailure::Document(e)),
                };
                (LookupState::Finished, LookupAction::Finish(answer))
            },
            LookupEvent::DocumentFetched(Err(description)) => (
                LookupState::Finished,
                LookupAction::Finish(Err(LookupFailure::Identity(description))),
            ),
        }
    }
}

} // verus!
