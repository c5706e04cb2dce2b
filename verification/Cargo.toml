[package]
name = "macos_routing_table"
version = "0.1.0"
edition = "2021"
publish = false

[dependencies]
cidr = "*"
mac_address = "*"
thiserror = "*"
tokio = { version = "*", features = ["macros", "process", "rt-multi-thread"] }
