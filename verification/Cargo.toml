[package]
name = "bump_scope"
version = "0.1.0"
edition = "2021"
publish = false

[dependencies]
serde = { version = "1", default-features = false, features = ["alloc"] }
allocator-api2 = { version = "0.2", default-features = false, features = ["alloc"] }
