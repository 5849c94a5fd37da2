[package]
name = "flype-word"
version = "0.1.0"
edition = "2021"
publish = false

[dependencies]
jieba-rs = "=0.11.0"
pinyin = "=0.11.0"
encoding_rs = "=0.8.44"
eframe = { version = "=0.37.0", default-features = false, features = ["default_fonts", "glow", "x11"] }
egui_extras = "=0.37.0"
rfd = { version = "=0.17.2", default-features = false, features = ["xdg-portal"] }
