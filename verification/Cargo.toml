[package]
name = "frost"
version = "0.1.0"
edition = "2021"
publish = false

[dependencies]
rand_core = { version = "=0.6.4", features = ["getrandom"] }
sha2 = "=0.10.9"
blake2 = "=0.10.6"
group = "=0.12.1"
elliptic-curve = { version = "=0.12.3", features = ["hash2curve"] }
p256 = { version = "=0.11.1", features = ["arithmetic", "bits"] }
k256 = { version = "=0.11.6", features = ["arithmetic", "bits"] }
curve25519-dalek = "=4.1.3"
dalek-ff-group = "=0.4.6"
multiexp = { version = "=0.1.0", features = ["batch"] }
thiserror = "=1.0.69"

[dev-dependencies]
hex = "=0.4.3"
