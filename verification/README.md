# iroh-atproto

Resolve [iroh](https://iroh.computer) nodes through [AT Protocol](https://atproto.com)
DID documents. A DID document advertises a node with a service entry:

```json
{
  "id": "#iroh",
  "type": "IrohNode",
  "serviceEndpoint": "iroh://<node-id>?relay=<percent-encoded-relay-url>"
}
```

## Layout

- `src/`: the library, verified with Verus. It holds the `serviceEndpoint` format
  (parsing, formatting, percent-encoding), the reading of DID documents, the decisions
  of an address lookup (a state machine from the outcome of the last network request to
  the next one), the messages of the resolution protocol, and the library's errors.
  Calls into `iroh` and `atrium` go through small trusted wrappers whose contracts are
  stated next to them.
- `tests/`: tests of the library against the real outside crates.
- `app/`: the networked half: the DNS and HTTP clients for the AT Protocol identity
  resolvers, the iroh address lookup that drives the library's state machine, the
  protocol handler and its client, and the serde forms of the protocol messages.
