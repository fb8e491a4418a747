[package]
name = "bntx"
version = "0.1.0"
edition = "2021"
publish = false

[dependencies]
image_dds = { version = "=0.7.2", default-features = false, features = ["ddsfile", "strum"] }
tegra_swizzle = "=0.4.0"
thiserror = "=1.0.69"
