[package]
name = "dl_lib"
version = "0.1.0"
edition = "2021"
publish = false

[dependencies]
md5 = "*"
object = { version = "*", default-features = false, features = ["read", "std"] }
memmap2 = "*"
clap = { version = "*", features = ["derive"] }
cortex-m = "*"
cortex-m-rt = "*"
cortex-m-semihosting = "*"
alloc-cortex-m = "*"
panic-halt = "*"
