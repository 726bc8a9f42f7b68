[package]
name = "ez430"
version = "0.1.0"
edition = "2021"
publish = false

[dependencies]
crc = "=3.4.0"
hidapi = { version = "=2.6.7", default-features = false, features = ["linux-native-basic-udev"] }
nusb = "=0.1.14"
