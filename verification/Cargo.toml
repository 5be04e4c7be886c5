[package]
name = "glommio"
version = "0.1.0"
edition = "2021"
publish = false

[dependencies]
ahash = "0.8"
buddy-alloc = "*"
futures-lite = "*"
io-uring = "*"
libc = "0.2"
nix = { version = "*", features = ["poll", "socket", "event", "fs", "uio", "net"] }
proc-macro2 = "1"
quote = "1"
rlimit = "*"
scopeguard = "1"
smallvec = "1"
syn = { version = "2", features = ["full", "extra-traits"] }
