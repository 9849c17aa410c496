[package]
name = "code_editor"
version = "0.1.0"
edition = "2021"
publish = false

[dependencies]
copypasta = "0.8"
env_logger = "0.10"
fontdue = "0.7"
log = "0.4"
pixels = "=0.10.0"
winit = "=0.27.5"
winit_input_helper = "=0.13.0"
