[package]
name = "pbn_to_pdf"
version = "0.1.0"
edition = "2021"
publish = false

[dependencies]
clap = { version = "4.5", features = ["derive"] }
printpdf = "0.8"
thiserror = "2"
log = "0.4"
