[package]
name = "pathtracer"
version = "0.1.0"
edition = "2021"
publish = false

[dependencies]
dyn-clone = "*"
fastrand = "*"
fltk = "*"
image = { version = "*", default-features = false, features = ["png"] }
ndarray = "*"
obj-rs = "*"
oidn = "*"
ultraviolet = { version = "*", features = ["f64"] }
