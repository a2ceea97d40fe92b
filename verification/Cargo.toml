[package]
name = "pdf_diff"
version = "0.1.0"
edition = "2021"
publish = false

[dependencies]
chrono = "*"
clap = { version = "*", features = ["derive"] }
futures = "*"
humantime = "*"
image = "*"
pdfium-render = "*"
rayon = "*"
tokio = { version = "*", features = ["fs", "macros", "rt-multi-thread", "time"] }
