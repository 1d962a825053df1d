[package]
name = "krypto"
version = "0.1.0"
edition = "2021"
publish = false

[dependencies]
bytes = "=1.12.1"
commonware-actor = "=2026.10.0"
commonware-consensus = { version = "=2026.10.0", features = ["mocks"] }
commonware-cryptography = { version = "=2026.10.0", features = ["mocks"] }
commonware-macros = "=2026.10.0"
commonware-p2p = "=2026.10.0"
commonware-parallel = "=2026.10.0"
commonware-runtime = "=2026.10.0"
commonware-utils = "=2026.10.0"
futures = "=0.3.34"
