[package]
name = "gpt_sovits"
version = "0.1.0"
edition = "2021"
publish = false

[dependencies]
jieba-rs = "*"
tch = "*"
tokenizers = "*"
