[package]
name = "address_translation"
version = "0.1.0"
edition = "2021"
publish = false

[dependencies]
rand = "0.7"
lazy_static = "1"
serde = { version = "1", features = ["derive"] }
serde_derive = "1"
rocket = "0.4"
rocket_contrib = { version = "0.4", default-features = false, features = ["handlebars_templates"] }
