[package]
name = "razer_battery_report"
version = "0.1.0"
edition = "2021"
publish = false

[dependencies]
hidapi = "*"
image = { version = "*", default-features = false, features = ["png"] }
log = "*"
notify-rust = "*"
parking_lot = "*"
tao = "*"
tray-icon = "*"
