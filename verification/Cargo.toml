[package]
name = "furigana"
version = "0.1.0"
edition = "2021"
publish = false

[dependencies]
difference = "2"
kanji = "*"
anyhow = "1"
clap = "4"
