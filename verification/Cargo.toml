[package]
name = "duckkit"
version = "0.13.0"
edition = "2021"
publish = false

[dependencies]
xxhash-rust = { version = "=0.8.19", features = ["xxh3"] }
oxc_allocator = "=0.143.0"
oxc_ast = "=0.143.0"
oxc_parser = "=0.143.0"
oxc_span = "=0.143.0"
egg = "=0.11.0"
cranelift = "=0.131.3"
cranelift-jit = "=0.131.3"
cranelift-module = "=0.131.3"
thiserror = "=2.0.21"
tokio = { version = "=1.54.1", features = ["rt-multi-thread", "time", "net", "macros"] }
futures-util = "=0.3.34"
wreq = { version = ">=6.0.0-rc.0", features = ["cookies", "stream"] }
wreq-util = ">=3.0.0-rc.0"
