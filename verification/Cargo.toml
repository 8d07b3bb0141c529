[package]
name = "spare_parts_xml"
version = "0.1.0"
edition = "2021"
publish = false

[dependencies]
clap = { version = "=4.6.7", features = ["derive"] }
csv = "=1.4.0"
encoding_rs = "=0.8.42"
encoding_rs_io = "=0.1.8"
fancy-regex = "=0.19.2"
quick-xml = { version = "=0.26.0", features = ["serialize"] }
serde = { version = "=1.0.229", features = ["derive"] }
