[package]
name = "rbn_vfd"
version = "0.1.0"
edition = "2021"
publish = false

[dependencies]
rand = "=0.8.8"
regex = "=1.13.1"
tokio = { version = "=1.54.1", features = ["rt", "net", "io-util", "sync", "macros", "time"] }
serialport = { version = "=4.10.1", default-features = false }
configparser = "=3.3.0"
directories = "=5.0.1"
winsafe = { version = "=0.0.29", features = ["oleaut"] }
