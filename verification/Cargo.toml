[package]
name = "noq_datagram"
version = "0.1.0"
edition = "2021"
publish = false

[dependencies]
anyhow = "1"
bytes = "1"
clap = { version = "4", features = ["derive"] }
hdrhistogram = { version = "7", default-features = false }
libc = "0.2"
rcgen = "0.14"
rustls = { version = "0.23", default-features = false, features = ["ring", "std"] }
thiserror = "2"
tokio = { version = "1", features = ["rt-multi-thread", "time", "macros"] }
tracing = "0.1"
tracing-subscriber = { version = "0.3", features = ["env-filter", "fmt"] }
windows-sys = { version = "0.61", features = ["Win32_Networking_WinSock"] }
