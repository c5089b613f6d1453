[package]
name = "rex_player"
version = "0.1.0"
edition = "2021"
publish = false

[dependencies]
json = "0.12"
rand = "0.8"
rhai = { version = "1", features = ["sync"] }
rhai-fs = "0.1"
rhai-rand = "0.1"
xcb = { version = "1", features = ["present", "xlib_xcb", "dri2", "glx", "xfixes", "render"] }
xcb-util-cursor = "0.3"
image = "0.25"
ffmpeg-next = "7"
cpal = "0.15"
smol = "2"
futures = "0.3"
anyhow = "1"
lazy_static = "1"
duct = "0.13"
ringbuf = "0.3"
bytemuck = "1"
