[package]
name = "stak"
version = "0.1.0"
edition = "2021"
publish = false

[dependencies]
any-fn = "*"
bitvec = "*"
cfg-exif = "*"
clap = { version = "*", features = ["derive"] }
heapless = "*"
libm = "*"
main_error = "*"
proc-macro2 = "*"
quote = "*"
rustix = { version = "*", features = ["time"] }
syn = { version = "*", features = ["full"] }
