[package]
name = "playlist_localizer"
version = "0.1.0"
edition = "2021"
publish = false

[dependencies]
clap = { version = "4", features = ["cargo"] }
clap_complete = "4"
walkdir = "2"
id3 = "1"
mp4ameta = "0.11"
