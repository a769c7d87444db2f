[package]
name = "subaru_web_ql"
version = "0.1.0"
edition = "2021"
publish = false

[dependencies]
xml-rs = "*"
scan_fmt = "*"
lazy_static = "*"
iron = "*"
router = "*"
mount = "*"
staticfile = "*"
urlencoded = "*"
curl = "*"
