[package]
name = "stalker"
version = "0.1.0"
edition = "2021"
publish = false

[dependencies]
anyhow = "=1.0.104"
bstr = { version = "=1.13.1", default-features = false, features = ["std"] }
clap = { version = "=4.6.7", features = ["derive"] }
crossbeam-channel = "=0.5.17"
globset = "=0.4.21"
ignore = "=0.4.34"
notify = "=8.2.1"
regex-automata = { version = "=0.4.18", default-features = false, features = ["hybrid", "meta", "nfa", "perf", "std", "syntax"] }
signal-hook = "=0.3.18"

[dev-dependencies]
tempfile = "=3.27.0"
