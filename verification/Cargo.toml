[package]
name = "kdbplus"
version = "0.1.0"
edition = "2021"
publish = false

[dependencies]
sha1_smol = "=1.0.1"
chrono = "=0.4.45"
tokio = { version = "=1.54.1", features = ["net", "io-util", "rt-multi-thread", "macros", "fs"] }
tokio-native-tls = "=0.3.1"
trust-dns-resolver = "=0.22.0"
libc = "=0.2.191"
