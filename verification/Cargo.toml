[package]
name = "crazyflie-link"
version = "0.1.0"
edition = "2021"
publish = false

[dependencies]
crazyradio = { version = "=0.7.0", features = ["shared_radio", "async", "packet_capture"] }
url = "=2.5.8"
hex = "=0.4.3"
flume = "=0.12.0"
futures-channel = "=0.3.34"
futures-util = "=0.3.34"
tokio = { version = "=1.54.1", features = ["rt", "time"] }
async-trait = "=0.1.92"
log = "=0.4.35"
rusb = "=0.9.4"
thiserror = "=2.0.21"
pyo3 = "*"
