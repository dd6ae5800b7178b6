[package]
name = "iroh_atproto"
version = "0.1.0"
edition = "2021"
publish = false

[dependencies]
atrium-api = { version = "=0.26.0", default-features = false }
atrium-common = "=0.1.4"
atrium-identity = { version = "=0.2.0", default-features = false }
atrium-xrpc = "=0.12.4"
# ed25519, pkcs8, signature and spki are not called here: they are held to the
# releases that iroh 0.97's ed25519-dalek 3.0.0-pre.1 compiles against.
ed25519 = { version = "=3.0.0-rc.4", default-features = false }
hickory-resolver = { version = "=0.25.2", default-features = false, features = ["tokio", "system-config"] }
iroh = { version = "=0.97.0", default-features = false }
n0-error = "=0.1.3"
n0-future = "=0.3.2"
pkcs8 = "=0.11.0-rc.11"
reqwest = { version = "=0.12.28", default-features = false }
serde = { version = "=1.0.229", features = ["derive"] }
serde_json = "=1.0.154"
signature = { version = "=3.0.0-rc.10", default-features = false }
spki = "=0.8.0-rc.4"
thiserror = "=2.0.21"
