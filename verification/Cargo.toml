[package]
name = "stereo_link"
version = "0.1.0"
edition = "2021"
publish = false

[dependencies]
bytes = "=1.12.1"
cpal = "=0.17.3"
ringbuf = "=0.4.8"
rtp = "=0.17.2"
webrtc-util = "=0.17.2"
