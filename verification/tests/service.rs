use iroh_atproto::{
    extract_iroh_addr, format_service_endpoint, parse_service_endpoint, percent_encode, DidDocument, Error,
    IrohAddr, NodeId, RelayUrl, Service, IROH_SERVICE_TYPE, SERVICE_ID,
};

fn dummy_key() -> iroh::PublicKey {
    // Generate a valid ed25519 public key from a fixed secret key.
    iroh::SecretKey::from([1u8; 32]).public()
}

fn dummy_node_id() -> NodeId {
    NodeId::parse(&dummy_key().to_string()).unwrap()
}

fn make_doc_with_service(service_endpoint: &str) -> DidDocument {
    DidDocument {
        id: "did:plc:test123".to_string(),
        service: Some(vec![Service {
            id: SERVICE_ID.to_string(),
            service_type: IROH_SERVICE_TYPE.to_string(),
            service_endpoint: service_endpoint.to_string(),
        }]),
    }
}

/// Verifies the service type and id constants.
#[test]
fn service_constants() {
    assert_eq!(SERVICE_ID, "#iroh");
    assert_eq!(IROH_SERVICE_TYPE, "IrohNode");
}

/// Verifies that extract_iroh_addr works for a DID document that has an IrohNode service.
#[test]
fn extract_from_did_doc() {
    let node_id = dummy_node_id();
    let endpoint = format!("iroh://{}", dummy_key());
    let doc = make_doc_with_service(&endpoint);
    let addr = extract_iroh_addr(&doc, "alice.example.com").unwrap();
    assert_eq!(addr.id(), node_id);
}

/// Verifies that extract_iroh_addr returns NoIrohService for a doc with no IrohNode service.
#[test]
fn extract_missing_service() {
    let doc = DidDocument { id: "did:plc:test123".to_string(), service: None };
    let err = extract_iroh_addr(&doc, "alice.example.com").unwrap_err();
    assert!(matches!(err, Error::NoIrohService(_)));
}

/// Verifies that a service with the wrong type is ignored.
#[test]
fn extract_wrong_service_type() {
    let doc = DidDocument {
        id: "did:plc:test123".to_string(),
        service: Some(vec![Service {
            id: SERVICE_ID.to_string(),
            service_type: "AtprotoPersonalDataServer".to_string(),
            service_endpoint: "https://bsky.social".to_string(),
        }]),
    };
    let err = extract_iroh_addr(&doc, "alice.example.com").unwrap_err();
    assert!(matches!(err, Error::NoIrohService(_)));
}

/// Verifies the format/parse roundtrip with a relay URL.
#[test]
fn format_parse_roundtrip_with_relay() {
    let node_id = dummy_node_id();
    let relay = RelayUrl::parse("https://relay.example.com").unwrap();
    let addr = IrohAddr::new(node_id).with_relay_url(relay.clone());
    let endpoint = format_service_endpoint(&addr);
    let parsed = parse_service_endpoint(&endpoint).unwrap();
    assert_eq!(parsed.id(), node_id);
    let relays: Vec<_> = parsed.relay_urls().iter().collect();
    assert_eq!(relays.len(), 1);
    assert_eq!(relays[0], &relay);
}

#[test]
fn parse_endpoint_no_relay() {
    let node_id = dummy_node_id();
    let endpoint = format!("iroh://{}", dummy_key());
    let addr = parse_service_endpoint(&endpoint).unwrap();
    assert_eq!(addr.id(), node_id);
    assert!(addr.relay_urls().iter().next().is_none());
}

#[test]
fn parse_endpoint_with_relay() {
    let node_id = dummy_node_id();
    let relay = "https://relay.example.com";
    let relay_url = RelayUrl::parse(relay).unwrap();
    let endpoint = format!("iroh://{}?relay={}", dummy_key(), percent_encode(relay));
    let addr = parse_service_endpoint(&endpoint).unwrap();
    assert_eq!(addr.id(), node_id);
    let relay_urls: Vec<_> = addr.relay_urls().iter().collect();
    assert_eq!(relay_urls.len(), 1);
    // The relay URL is normalized (e.g. a trailing slash is added), so compare
    // against the parsed form rather than the raw input string.
    assert_eq!(relay_urls[0], &relay_url);
}

#[test]
fn format_roundtrip_no_relay() {
    let node_id = dummy_node_id();
    let addr = IrohAddr::new(node_id);
    let endpoint = format_service_endpoint(&addr);
    let parsed = parse_service_endpoint(&endpoint).unwrap();
    assert_eq!(parsed.id(), addr.id());
    assert!(parsed.relay_urls().iter().next().is_none());
}

#[test]
fn format_roundtrip_with_relay() {
    let node_id = dummy_node_id();
    let relay_url = RelayUrl::parse("https://relay.example.com").unwrap();
    let addr = IrohAddr::new(node_id).with_relay_url(relay_url.clone());
    let endpoint = format_service_endpoint(&addr);
    let parsed = parse_service_endpoint(&endpoint).unwrap();
    assert_eq!(parsed.id(), addr.id());
    let relay_urls: Vec<_> = parsed.relay_urls().iter().collect();
    assert_eq!(relay_urls.len(), 1);
    assert_eq!(relay_urls[0], &relay_url);
}

#[test]
fn parse_invalid_scheme() {
    assert!(parse_service_endpoint("https://example.com").is_err());
    assert!(parse_service_endpoint("did:plc:abc").is_err());
}

#[test]
fn parse_invalid_node_id() {
    assert!(parse_service_endpoint("iroh://not-a-key").is_err());
}
