[package]
name = "unx"
version = "0.1.0"
edition = "2021"
publish = false

[dependencies]
anyhow = "1"
byteorder = { version = "1", default-features = false }
clap = "2"
fatfs = "*"
gpt = "*"
log = "0.4"
spinning_top = "*"
uart_16550 = { version = "*", default-features = false }
uefi = "*"
uefi-services = { version = "*", default-features = false }
x86_64 = { version = "*", default-features = false, features = ["instructions"] }
xmas-elf = "*"
