[package]
name = "log_args_runtime"
version = "0.1.0"
edition = "2021"
publish = false

[dependencies]
tracing = "=0.1.44"
syn = { version = "=2.0.119", features = ["full", "visit-mut"] }
quote = "=1.0.47"
proc-macro2 = "=1.0.107"
tokio = { version = "1", default-features = false, features = ["rt"] }
