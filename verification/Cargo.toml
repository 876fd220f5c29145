[package]
name = "tg_rcore_tutorial"
version = "0.1.0"
edition = "2021"
publish = false

[dependencies]
lazy_static = "1.5.1"
riscv = "0.11.1"
tg-sbi = "0.4.2-preview.1"
