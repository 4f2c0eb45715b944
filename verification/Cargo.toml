[package]
name = "gateway_mesh"
version = "0.1.0"
edition = "2021"
publish = false

[dependencies]
aes = "0.8"
anyhow = "1"
chirpstack_api = { version = "*", default-features = false }
clap = { version = "4", features = ["derive"] }
cmac = "0.7"
futures = "0.3"
getrandom = "*"
handlebars = "*"
hex = "0.4"
log = "0.4"
lrwn_filters = "*"
once_cell = "1"
rand = "*"
serde = { version = "1", features = ["derive"] }
signal-hook = "0.3"
signal-hook-tokio = { version = "0.3", features = ["futures-v0_3"] }
tokio = { version = "1", features = ["macros", "rt-multi-thread", "time", "sync", "process", "io-util"] }
toml = "*"
zmq = "*"
