[package]
name = "adbackup"
version = "0.1.0"
edition = "2021"
publish = false

[dependencies]
tar = { version = "0.4", default-features = false }
rusqlite = "0.31"
clap = "2"
failure = "0.1"
failure_derive = "0.1"
fern = "0.6"
log = "0.4"
chrono = "0.4"
