[package]
name = "xitca_core"
version = "0.1.0"
edition = "2021"
publish = false

[dependencies]
bytes = "1"
rand = "0.8"
httpdate = "1"
tokio = { version = "1", features = ["rt", "time", "sync", "net"] }
postgres-protocol = "0.6"
futures-core = "0.3"
xitca-io = { version = "0.4", features = ["runtime"] }
xitca-unsafe-collection = { version = "0.2", features = ["bytes"] }
