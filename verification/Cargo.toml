[package]
name = "order_book"
version = "0.1.0"
edition = "2021"
publish = false

[dependencies]
crossbeam = "*"
rustc-hash = "*"
phf = { version = "*", features = ["macros"] }
serde = { version = "*", features = ["derive"] }
