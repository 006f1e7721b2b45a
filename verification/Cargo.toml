[package]
name = "better_folder_size"
version = "0.1.0"
edition = "2021"
publish = false

[dependencies]
rayon = "1"
native-windows-gui = "1"
native-windows-derive = "1"
winapi = { version = "0.3", features = ["libloaderapi", "winuser"] }
