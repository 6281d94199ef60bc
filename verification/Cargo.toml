[package]
name = "sbb"
version = "0.1.0"
edition = "2021"
publish = false

[dependencies]
aes-gcm = "0.10"
sha2 = "0.10"
rand = "0.9"
hex = "0.4"
sysinfo = { version = "0.30", default-features = false }
clap = { version = "4", features = ["derive"] }
libc = "0.2"
winapi = { version = "0.3", features = ["processthreadsapi", "minwindef"] }
