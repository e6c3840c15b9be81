[package]
name = "uring-positioned-io"
version = "0.1.0"
edition = "2021"
publish = false

[dependencies]
async-stream = "=0.3.6"
async-trait = "=0.1.92"
bytes = "=1.12.1"
clap = "=2.34.0"
crossbeam-channel = "=0.5.17"
env_logger = "=0.8.4"
futures = "=0.3.34"
io-uring = { version = "=0.4.0", features = ["concurrent"] }
libc = "=0.2.191"
log = "=0.4.35"
memmap = "=0.7.0"
pin-project = "=1.1.13"
rand = "=0.8.8"
tokio = { version = "=1.54.1", features = ["macros", "rt-multi-thread", "sync"] }
