[package]
name = "raft"
version = "0.1.0"
edition = "2021"
publish = false

[dependencies]
hashbrown = "0.1"
protobuf = "2.0"
rand = "0.5"
