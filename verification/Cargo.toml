[package]
name = "entity_alloc"
version = "0.1.0"
edition = "2021"
publish = false

[dependencies]
serde = { version = "1", default-features = false, features = ["std"] }

[dev-dependencies]
serde_json = "1"
