[package]
name = "midi_mixer"
version = "0.1.0"
edition = "2021"
publish = false

[dependencies]
midir = "0.9"
midly = "0.5"
serde = { version = "1", features = ["derive"] }
serde_yaml = "0.9"
windows = { version = "0.48", features = [
    "Win32_Foundation",
    "Win32_Media_Audio",
    "Win32_Media_Audio_Endpoints",
    "Win32_System_Com",
    "Win32_System_ProcessStatus",
    "Win32_System_Threading",
] }
