[package]
name = "mmtk"
version = "0.32.0"
edition = "2021"
publish = false

[dependencies]
atomic = "0.6"
crossbeam = "0.8"
enum-map = "2.7"
lazy_static = "1.4"
log = "0.4"
probe = "0.5"
static_assertions = "1.1"
