[package]
name = "cyd_player"
version = "0.1.0"
edition = "2021"
publish = false

[dependencies]
zune-jpeg = "*"
zune-core = "*"
regex = "*"
argh = "*"
log = "*"
embedded-io = "*"
embedded-graphics = "*"
display-interface = "*"
embedded-sdmmc = "*"
embedded-hal = "*"
embedded-hal-bus = "*"
mipidsi = "*"
critical-section = "*"
format_no_std = "*"
