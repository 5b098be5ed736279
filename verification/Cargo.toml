[package]
name = "raft_consensus"
version = "0.1.0"
edition = "2021"
publish = false

[dependencies]
bincode = "=1.3.3"
divrem = "=1.0.0"
fault-injection = "=1.0.10"
mock_instant = "=0.6.1"
rand = "=0.8.8"
rand_chacha = "=0.3.1"
rand_distr = "=0.4.3"
serde = "=1.0.229"
tracing = "=0.1.44"
uuid = { version = "=1.29.0", features = ["v4"] }

[dev-dependencies]
quickcheck = { version = "1", default-features = false }
