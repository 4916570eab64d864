[package]
name = "phemius"
version = "0.1.0"
edition = "2021"
publish = false

[dependencies]
anyhow = "1"
cap-std = "*"
clap = { version = "4", features = ["derive"] }
eventsource-stream = "0.2"
futures-util = "0.3"
htmd = "*"
libc = "0.2"
pdf-extract = "*"
regex = "1"
reqwest = { version = "0.12", default-features = false, features = ["stream", "json"] }
serde = { version = "1", features = ["derive"] }
serde_json = "1"
sha2 = "0.10"
similar = "2"
tokio = { version = "1", features = ["full"] }
toml = "*"
unicode-general-category = "1"
unicode-normalization = "0.1"
unicode-segmentation = "1"
uuid = { version = "1", features = ["v7", "serde"] }
yaml_serde = "*"
