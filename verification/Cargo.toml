[package]
name = "rust_order_book"
version = "0.1.0"
edition = "2021"
publish = false

[dependencies]
rb_tree = "*"
rustc-hash = "*"
serde = { version = "*", features = ["derive"] }
thiserror = "*"

[dev-dependencies]
rand = "0.9"
