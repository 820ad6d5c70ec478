[package]
name = "leptos_i18n_ranges"
version = "0.1.0"
edition = "2021"
publish = false

[dependencies]
proc-macro2 = "1"
quote = "1"
serde = "1"
syn = { version = "2", features = ["full"] }
