[package]
name = "envoy_ndjson_to_sse"
version = "0.1.0"
edition = "2021"
publish = false

[dependencies]
proxy-wasm = "0.2"
log = "0.4"
