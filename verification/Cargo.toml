[package]
name = "bufferfish"
version = "0.1.0"
edition = "2021"
publish = false

[dependencies]
bytes = "1"
unicode-width = "0.2"
syn = { version = "2", features = ["full"] }
quote = "1"
proc-macro2 = "1"
