[package]
name = "cfgseq"
version = "0.1.0"
edition = "2021"
publish = false

[dependencies]
ansi_term = "0.12"
chrono = "0.4"
docopt = "1"
notify = "*"
portmidi = "*"
serde = { version = "1", features = ["derive"] }
serde_yaml = "*"
spin_sleep = "1"
