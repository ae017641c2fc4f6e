[package]
name = "rune_engine"
version = "0.1.0"
edition = "2021"
publish = false

[dependencies]
bitcoin = "=0.32.102"
ordinals = "=0.0.17"
tiny-keccak = { version = "=2.0.2", features = ["sha3"] }
hex = "=0.4.3"
candid = "=0.10.37"
serde = "1"
ic-cdk = "=0.17.2"
ic-cdk-timers = "=0.11.1"
ic-stable-structures = "=0.7.2"
ic-ledger-types = "=0.14.0"
icrc-ledger-types = "=0.2.0"
slotmap = "=1.1.1"
