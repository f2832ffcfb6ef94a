[package]
name = "solana-program-recover"
version = "0.1.0"
edition = "2021"
publish = false

[dependencies]
bincode = "=1.3.3"
bs58 = "=0.5.1"
clap = { version = "=3.2.25", default-features = false, features = ["std", "derive", "cargo"] }
log = "=0.4.35"
serde_json = "=1.0.154"
solana-clap-v3-utils = "~3.0"
solana-commitment-config = "=3.1.1"
solana-loader-v3-interface = { version = "=9.0.0", features = ["serde"] }
solana-pubkey = { version = "=4.4.0", features = ["curve25519"] }
solana-rpc-client = { version = "=3.0.14", default-features = false }
solana-rpc-client-api = "=3.0.14"
solana-sdk-ids = "=3.1.0"
solana-signature = "=3.6.0"
solana-transaction-status-client-types = "=3.0.14"
thiserror = "=2.0.21"
tokio = { version = "=1.54.1", features = ["macros", "rt-multi-thread"] }
