[package]
name = "tonism"
version = "0.1.0"
edition = "2021"
publish = false

[dependencies]
rtrb = "0.3"
anyhow = "1"
thiserror = "2"
serde = { version = "1", features = ["derive"] }
confy = "*"
tracing = "0.1"
tracing-subscriber = { version = "0.3", features = ["env-filter"] }
cpal = "0.17"
assert_no_alloc = "1"
eframe = { version = "*", default-features = false, features = ["glow", "x11", "default_fonts"] }
egui = "*"
