[package]
name = "indexer_sdk"
version = "0.1.0"
edition = "2021"
publish = false

[dependencies]
bitcoincore-rpc = "*"
rusty-leveldb = "*"
tokio = { version = "*", default-features = false, features = ["rt-multi-thread", "sync", "time", "macros"] }
async-channel = "*"
crossbeam = "*"
log = "*"
env_logger = "*"
