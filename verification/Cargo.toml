[package]
name = "comparador"
version = "0.1.0"
edition = "2021"
publish = false

[dependencies]
image = { version = "0.25", default-features = false, features = ["png", "jpeg", "qoi"] }
clap = { version = "4", features = ["derive"] }
globwalk = "*"
rayon = "1"
simple-tqdm = "*"
webp = "*"
