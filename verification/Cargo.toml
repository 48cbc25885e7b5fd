[package]
name = "eli-lib"
version = "0.1.0"
edition = "2021"
publish = false

[dependencies]
regex = "=1.13.1"
serde = { version = "=1.0.229", features = ["derive"] }
serde_json = "=1.0.154"
clap = { version = "=4.6.7", features = ["derive"] }
fs2 = "=0.4.3"
indicatif = "=0.18.6"
isomage = "=2.1.0"
image = { version = "=0.25.10", default-features = false, features = ["png", "webp", "jpeg", "bmp", "tiff", "ico", "tga"] }
windows-sys = { version = "=0.61.2", features = ["Win32_Foundation", "Win32_Storage_FileSystem", "Win32_System_Threading", "Win32_Globalization"] }
