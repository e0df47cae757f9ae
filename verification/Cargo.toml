[package]
name = "tx_gen"
version = "0.1.0"
edition = "2021"
publish = false

[dependencies]
futures = "=0.3.34"
kaspa-addresses = "=0.15.0"
kaspa-consensus-core = "=0.15.0"
kaspa-grpc-client = "=0.15.0"
kaspa-rpc-core = "=0.15.0"
kaspa-txscript = "=0.15.0"
rayon = "=1.12.0"
secp256k1 = { version = "=0.29.1", features = ["global-context", "rand-std"] }
tokio = { version = "=1.54.1", features = ["macros", "rt-multi-thread", "sync", "time"] }
# Not used directly: the Kaspa crates pull in workflow-core 0.18, which does not compile against
# later releases of wasm-bindgen.
wasm-bindgen = "=0.2.93"
