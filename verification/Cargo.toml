[package]
name = "async_graphql"
version = "0.1.0"
edition = "2021"
publish = false

[dependencies]
indexmap = "=2.14.2"
jiff = "=0.2.39"
futures-util = "=0.3.34"
async-trait = "=0.1.92"
asynk-strim = "=0.1.5"
thiserror = "=2.0.21"
syn = { version = "=2.0.119", features = ["full", "visit", "visit-mut", "extra-traits"] }
quote = "=1.0.47"
proc-macro2 = "=1.0.107"
darling = "=0.20.11"
proc-macro-crate = "=3.5.0"
