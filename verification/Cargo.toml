[package]
name = "servo_sync"
version = "0.1.0"
edition = "2021"
publish = false

[dependencies]
st3215 = "=0.0.2"
eframe = { version = "=0.31.1", default-features = false, features = ["default_fonts", "glow", "x11"] }
egui_plot = "=0.32.1"
embedded-io-async = "=0.6.1"
embassy-time = { version = "=0.4.0", features = ["std"] }
serialport = { version = "4", default-features = false }
