[package]
name = "click_house_component"
version = "0.1.0"
edition = "2021"
publish = false

[dependencies]
clickhouse = "=0.15.3"
native_api_1c = "=0.10.7"
serde = { version = "=1.0.229", features = ["derive"] }
serde_json = { version = "=1.0.154", features = ["float_roundtrip"] }
tokio = { version = "=1.54.1", features = ["rt-multi-thread", "macros", "time"] }
tokio-retry2 = { version = "=0.9.1", features = ["jitter"] }
utf16_lit = "=2.0.2"
