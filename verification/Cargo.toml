[package]
name = "todo_store"
version = "0.1.0"
edition = "2021"
publish = false

[dependencies]
tokio = { version = "1", features = ["macros", "rt-multi-thread"] }
tonic = "*"
tonic-web = "*"
