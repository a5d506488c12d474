[package]
name = "hvm"
version = "0.1.0"
edition = "2021"
publish = false

[dependencies]
bytemuck = "1"
clap = "4"
num_cpus = "1"
pollster = "*"
wgpu = "*"
