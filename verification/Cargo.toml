[package]
name = "io_imap"
version = "0.1.0"
edition = "2021"
publish = false

[dependencies]
base64 = "=0.22.1"
chrono = { version = "=0.4.45", default-features = false, features = ["alloc"] }
imap-codec = { version = "=2.0.0-alpha.10", features = ["ext_condstore_qresync", "ext_id", "starttls", "tag_generator"] }
rand = "0.10"
thiserror = "=2.0.21"
