[package]
name = "blitz_notepad"
version = "0.1.0"
edition = "2021"
publish = false

[dependencies]
ab_glyph = "=0.2.32"
arboard = { version = "=3.7.0", default-features = false }
dirs = "=7.0.0"
encoding_rs = "=0.8.44"
fontdb = "=0.24.0"
memchr = "=2.8.3"
memmap2 = "=0.9.12"
minifb = { version = "=0.29.0", default-features = false, features = ["x11"] }
pixels = "=0.17.2"
png = "=0.18.1"
rfd = "=0.17.2"
serde = { version = "=1.0.229", features = ["derive"] }
serde_json = "=1.0.154"
swash = "=0.2.10"
thiserror = "=2.0.21"
time = { version = "=0.3.55", features = ["formatting", "local-offset"] }
urlencoding = "=2.1.3"
webbrowser = "=1.2.6"
windows-sys = { version = "=0.61.2", features = ["Win32_Foundation", "Win32_Globalization", "Win32_Graphics_Gdi", "Win32_UI_Controls_Dialogs", "Win32_UI_Input_Ime", "Win32_UI_Input_KeyboardAndMouse"] }
