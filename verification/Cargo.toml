[package]
name = "shaderbg"
version = "1.0.0"
edition = "2021"
publish = false

[dependencies]
chrono = "0.4"
clap = "4"
dirs = "*"
drm = "*"
function_name = "*"
gl = "*"
gtk4 = "*"
gtk4-layer-shell = "*"
image = "*"
libloading = "*"
log = "0.4"
num-traits = "0.2"
owo-colors = "*"
regex = "=1.13.1"
reqwest = { version = "*", features = ["blocking"] }
serde = { version = "1", features = ["derive"] }
serde_json = "1"
simple_logger = "*"
thiserror = "*"
toml = "*"
