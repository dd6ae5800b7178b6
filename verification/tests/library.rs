use iroh_atproto::dns::txt_strings;
use iroh_atproto::proto::{fallback_error_json, identity_from_response, response_for_outcome, MAX_MESSAGE_LEN};
use iroh_atproto::{
    extract_iroh_addr, format_service_endpoint, parse_service_endpoint, percent_decode, percent_encode,
    event_awaited, AtProtoLookup, AtProtoResolverConfig, AtprotoProtocolConfig, DidDocument, Error, IrohAddr, LookupAction,
    LookupEvent, LookupFailure, LookupState, NodeId, RelayUrl, ResolveRequest, ResolveResponse,
    ResolvedIdentity, Service,
};

fn key(seed: u8) -> iroh::PublicKey {
    iroh::SecretKey::from([seed; 32]).public()
}

fn node(seed: u8) -> NodeId {
    NodeId::parse(&key(seed).to_string()).unwrap()
}

fn doc(id: &str, services: Vec<(&str, &str, &str)>) -> DidDocument {
    DidDocument {
        id: id.to_string(),
        service: Some(
            services
                .into_iter()
                .map(|(id, t, e)| Service {
                    id: id.to_string(),
                    service_type: t.to_string(),
                    service_endpoint: e.to_string(),
                })
                .collect(),
        ),
    }
}

#[test]
fn percent_encode_exact() {
    assert_eq!(percent_encode("https://relay.example.com"), "https%3A%2F%2Frelay.example.com");
    assert_eq!(percent_encode("a b~-_.Z9"), "a%20b~-_.Z9");
    assert_eq!(percent_encode("é&?"), "%C3%A9%26%3F");
    assert_eq!(percent_encode(""), "");
}

#[test]
fn percent_decode_exact() {
    assert_eq!(percent_decode("%41%42c"), "ABc");
    assert_eq!(percent_decode("%c3%A9"), "é");
    // Only `%` followed by two hex digits is an escape.
    assert_eq!(percent_decode("%+5x"), "%+5x");
    assert_eq!(percent_decode("%+A"), "%+A");
    assert_eq!(percent_decode("%-1%41"), "%-1A");
    // An escape needs two more bytes after the `%`.
    assert_eq!(percent_decode("%4"), "%4");
    assert_eq!(percent_decode("a%"), "a%");
    assert_eq!(percent_decode("%zz%2"), "%zz%2");
    // Bytes that are not UTF-8 become the replacement character.
    assert_eq!(percent_decode("%ff"), "\u{FFFD}");
}

#[test]
fn percent_encode_of_joined_texts_joins_encodings() {
    for (a, b) in [("", "x"), ("https://", "relay.example.com/"), ("pä", "th€ ~")] {
        assert_eq!(percent_encode(&format!("{a}{b}")), percent_encode(a) + &percent_encode(b));
    }
}

#[test]
fn percent_decode_keeps_text_without_percent() {
    for s in ["", "a+b", "https://relay.example.com/?x=1&y=2", "päth€😀"] {
        assert_eq!(percent_decode(s), s);
    }
}

#[test]
fn percent_decode_undoes_encode() {
    for s in ["", "plain", "https://relay.example.com/?x=1&y=%", "päth/ü€😀 +"] {
        assert_eq!(percent_decode(&percent_encode(s)), s);
    }
}

#[test]
fn node_id_hex_matches_iroh_display() {
    let k = key(7);
    let id = NodeId::parse(&k.to_string()).unwrap();
    assert_eq!(id.to_hex(), k.to_string());
    assert_eq!(id.key_bytes(), *k.as_bytes());
    let parsed = NodeId::parse(&k.to_string()).unwrap();
    assert!(parsed.same_as(&id));
    assert!(!parsed.same_as(&node(8)));
    assert!(NodeId::parse("zz").is_err());
}

#[test]
fn relay_url_is_normalized() {
    let url = RelayUrl::parse("https://relay.example.com").unwrap();
    assert_eq!(url.as_str(), "https://relay.example.com/");
    assert!(RelayUrl::parse("not a url").is_none());
}

#[test]
fn relays_form_a_sorted_set() {
    let b = RelayUrl::parse("https://b.example.com").unwrap();
    let a = RelayUrl::parse("https://a.example.com").unwrap();
    let addr = IrohAddr::new(node(1)).with_relay_url(b.clone()).with_relay_url(a.clone()).with_relay_url(b.clone());
    assert_eq!(addr.relay_urls(), &[a, b][..]);
}

#[test]
fn format_endpoint_exact() {
    let k = key(1);
    let addr = IrohAddr::new(node(1))
        .with_relay_url(RelayUrl::parse("https://relay.example.com").unwrap())
        .with_relay_url(RelayUrl::parse("https://a.example.com").unwrap());
    assert_eq!(
        format_service_endpoint(&addr),
        format!("iroh://{k}?relay=https%3A%2F%2Fa.example.com%2F&relay=https%3A%2F%2Frelay.example.com%2F")
    );
    assert_eq!(format_service_endpoint(&IrohAddr::new(node(1))), format!("iroh://{k}"));
}

#[test]
fn parse_endpoint_several_relays_and_other_params() {
    let k = key(2);
    let endpoint = format!(
        "iroh://{k}?foo=bar&relay=https%3A%2F%2Fb.example.com&relay=https://a.example.com&relay=https%3a%2f%2fb.example.com%2f"
    );
    let addr = parse_service_endpoint(&endpoint).unwrap();
    assert_eq!(addr.id(), node(2));
    let texts: Vec<&str> = addr.relay_urls().iter().map(|r| r.as_str()).collect();
    assert_eq!(texts, vec!["https://a.example.com/", "https://b.example.com/"]);
}

#[test]
fn parse_endpoint_error_details() {
    match parse_service_endpoint("https://example.com") {
        Err(Error::InvalidServiceEndpoint { endpoint, reason }) => {
            assert_eq!(endpoint, "https://example.com");
            assert_eq!(reason, "must start with `iroh://`");
        }
        other => panic!("unexpected {other:?}"),
    }
    match parse_service_endpoint("iroh://not-a-key?relay=https%3A%2F%2Fx") {
        Err(Error::InvalidNodeId { value, .. }) => assert_eq!(value, "not-a-key"),
        other => panic!("unexpected {other:?}"),
    }
    let endpoint = format!("iroh://{}?relay=not%20a%20url", key(3));
    match parse_service_endpoint(&endpoint) {
        Err(Error::InvalidServiceEndpoint { endpoint: e, reason }) => {
            assert_eq!(e, endpoint);
            assert_eq!(reason, "invalid relay URL `not a url`");
        }
        other => panic!("unexpected {other:?}"),
    }
}

#[test]
fn extract_matches_full_service_id_and_first_entry() {
    let first = format!("iroh://{}", key(4));
    let second = format!("iroh://{}", key(5));
    let d = doc(
        "did:plc:abc",
        vec![
            ("#other", "IrohNode", "iroh://ignored"),
            ("did:plc:abc#iroh", "IrohNode", &first),
            ("#iroh", "IrohNode", &second),
        ],
    );
    assert_eq!(extract_iroh_addr(&d, "abc.example.com").unwrap().id(), node(4));
    let empty = doc("did:plc:abc", vec![]);
    match extract_iroh_addr(&empty, "abc.example.com") {
        Err(Error::NoIrohService(name)) => assert_eq!(name, "abc.example.com"),
        other => panic!("unexpected {other:?}"),
    }
    let broken = doc("did:plc:abc", vec![("#iroh", "IrohNode", "https://x")]);
    assert!(matches!(extract_iroh_addr(&broken, "x"), Err(Error::InvalidServiceEndpoint { .. })));
}

#[test]
fn error_messages() {
    assert_eq!(Error::NoIrohService("a.b".to_string()).message(), "no `IrohNode` service found in DID document for `a.b`");
    assert_eq!(
        Error::InvalidServiceEndpoint { endpoint: "x".to_string(), reason: "why".to_string() }.message(),
        "invalid IrohNode service endpoint `x`: why"
    );
    assert_eq!(Error::Identity("resource not found".to_string()).message(), "AT Protocol identity error: resource not found");
    assert_eq!(Error::Remote("boom".to_string()).message(), "remote resolver error: boom");
    assert_eq!(Error::Iroh("timed out".to_string()).message(), "iroh connection error: timed out");
    assert_eq!(Error::Json("EOF".to_string()).message(), "JSON error: EOF");
    match parse_service_endpoint("iroh://zz") {
        Err(e) => {
            let key_error = "zz".parse::<iroh::PublicKey>().unwrap_err();
            assert_eq!(e.message(), format!("invalid iroh node ID `zz`: {key_error}"));
        }
        Ok(_) => panic!("expected an error"),
    }
}

fn lookup(identifier: &str, seed: u8) -> AtProtoLookup {
    AtProtoLookup::new(&AtProtoResolverConfig::new(identifier.to_string()), node(seed))
}

#[test]
fn lookup_starts_from_did_or_handle() {
    let l = lookup("did:plc:z72i7hdynmk6r22z27h6tvur", 1);
    match l.step(LookupState::Start, LookupEvent::Begin) {
        (LookupState::AwaitingDocument, LookupAction::FetchDocument(did)) => {
            assert_eq!(did, "did:plc:z72i7hdynmk6r22z27h6tvur")
        }
        _ => panic!("expected a document fetch"),
    }
    let l = lookup("alice.bsky.social", 1);
    match l.step(LookupState::Start, LookupEvent::Begin) {
        (LookupState::AwaitingHandle, LookupAction::ResolveHandle(h)) => assert_eq!(h, "alice.bsky.social"),
        _ => panic!("expected a handle resolution"),
    }
    let l = lookup("not an identifier", 1);
    match l.step(LookupState::Start, LookupEvent::Begin) {
        (LookupState::Finished, LookupAction::Finish(Err(LookupFailure::InvalidIdentifier(m)))) => {
            assert_eq!(m, "Invalid handle")
        }
        _ => panic!("expected an invalid identifier"),
    }
}

#[test]
fn lookup_after_handle() {
    let l = lookup("alice.bsky.social", 1);
    match l.step(LookupState::AwaitingHandle, LookupEvent::HandleResolved(Ok("did:web:example.com".to_string()))) {
        (LookupState::AwaitingDocument, LookupAction::FetchDocument(did)) => assert_eq!(did, "did:web:example.com"),
        _ => panic!("expected a document fetch"),
    }
    match l.step(LookupState::AwaitingHandle, LookupEvent::HandleResolved(Ok("did:x".to_string()))) {
        (LookupState::Finished, LookupAction::Finish(Err(LookupFailure::InvalidDid { did, reason }))) => {
            assert_eq!(did, "did:x");
            assert_eq!(reason, "Invalid DID");
        }
        _ => panic!("expected an invalid DID"),
    }
    match l.step(LookupState::AwaitingHandle, LookupEvent::HandleResolved(Err("resource not found".to_string()))) {
        (LookupState::Finished, LookupAction::Finish(Err(LookupFailure::Identity(m)))) => {
            assert_eq!(m, "resource not found")
        }
        _ => panic!("expected an identity failure"),
    }
}

#[test]
fn lookup_answers_only_for_the_requested_node() {
    let endpoint = format!("iroh://{}", key(6));
    let d = doc("did:plc:abc", vec![("#iroh", "IrohNode", &endpoint)]);
    match lookup("did:plc:abc", 6).step(LookupState::AwaitingDocument, LookupEvent::DocumentFetched(Ok(d.clone()))) {
        (LookupState::Finished, LookupAction::Finish(Ok(addr))) => assert_eq!(addr.id(), node(6)),
        _ => panic!("expected an address"),
    }
    match lookup("did:plc:abc", 9).step(LookupState::AwaitingDocument, LookupEvent::DocumentFetched(Ok(d))) {
        (LookupState::Finished, LookupAction::Finish(Err(LookupFailure::NoResults))) => {}
        _ => panic!("expected no results"),
    }
    let none = DidDocument { id: "did:plc:abc".to_string(), service: None };
    match lookup("did:plc:abc", 6).step(LookupState::AwaitingDocument, LookupEvent::DocumentFetched(Ok(none))) {
        (LookupState::Finished, LookupAction::Finish(Err(LookupFailure::Document(Error::NoIrohService(n))))) => {
            assert_eq!(n, "did:plc:abc")
        }
        _ => panic!("expected a missing service"),
    }
}

#[test]
fn dns_txt_keeps_utf8_records() {
    let chunks = vec![b"did=did:plc:abc".to_vec(), vec![0xff, 0xfe], "é".as_bytes().to_vec()];
    assert_eq!(txt_strings(&chunks), vec!["did=did:plc:abc".to_string(), "é".to_string()]);
}

#[test]
fn protocol_messages() {
    assert_eq!(ResolveRequest::for_handle("alice.bsky.social").identifier(), "alice.bsky.social");
    assert_eq!(ResolveRequest::for_did("did:plc:xyz").identifier(), "did:plc:xyz");
    let identity = ResolvedIdentity { did: "did:plc:xyz".to_string(), pds: "https://pds.example".to_string() };
    let response = response_for_outcome(Ok(identity.clone()));
    assert_eq!(response, ResolveResponse::Resolved { did: "did:plc:xyz".to_string(), pds: "https://pds.example".to_string() });
    assert_eq!(identity_from_response(response).unwrap(), identity);
    let response = response_for_outcome(Err("resource not found".to_string()));
    match identity_from_response(response) {
        Err(Error::Remote(m)) => assert_eq!(m, "resource not found"),
        other => panic!("unexpected {other:?}"),
    }
}

#[test]
fn configuration_defaults() {
    assert_eq!(AtprotoProtocolConfig::default().plc_directory_url, "https://plc.directory/");
    let config = AtProtoResolverConfig::new("alice.bsky.social".to_string());
    assert_eq!(config.at_identifier, "alice.bsky.social");
    assert_eq!(config.plc_directory_url, "https://plc.directory/");
}

#[test]
fn lookup_failure_reasons() {
    let reason = |f: LookupFailure| f.reason();
    assert_eq!(
        reason(LookupFailure::InvalidIdentifier("Invalid handle".to_string())),
        Some("invalid at identifier: Invalid handle".to_string())
    );
    assert_eq!(reason(LookupFailure::Identity("resource not found".to_string())), Some("resource not found".to_string()));
    assert_eq!(
        reason(LookupFailure::InvalidDid { did: "did:x".to_string(), reason: "Invalid DID".to_string() }),
        Some("invalid DID `did:x`: Invalid DID".to_string())
    );
    assert_eq!(
        reason(LookupFailure::Document(Error::NoIrohService("alice.example.com".to_string()))),
        Some("no `IrohNode` service found in DID document for `alice.example.com`".to_string())
    );
    assert_eq!(reason(LookupFailure::NoResults), None);
}

#[test]
fn lookup_events_awaited_by_state() {
    assert!(event_awaited(LookupState::Start, &LookupEvent::Begin));
    assert!(event_awaited(LookupState::AwaitingHandle, &LookupEvent::HandleResolved(Ok("did:plc:a".to_string()))));
    assert!(event_awaited(LookupState::AwaitingDocument, &LookupEvent::DocumentFetched(Err("gone".to_string()))));
    assert!(!event_awaited(LookupState::Start, &LookupEvent::HandleResolved(Err("x".to_string()))));
    assert!(!event_awaited(LookupState::AwaitingHandle, &LookupEvent::Begin));
    assert!(!event_awaited(LookupState::Finished, &LookupEvent::Begin));
}

#[test]
fn fallback_error_response_text() {
    assert_eq!(fallback_error_json("EOF while parsing"), "{\"status\":\"error\",\"message\":\"EOF while parsing\"}");
    assert_eq!(MAX_MESSAGE_LEN, 65536);
}
