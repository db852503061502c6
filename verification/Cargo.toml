[package]
name = "rojo"
version = "0.1.0"
edition = "2021"
publish = false

[dependencies]
csv = "1"
serde_json = "1"
serde = { version = "1", features = ["derive"] }
log = "0.4"
notify = "*"
crossbeam-channel = "*"
rouille = "*"
rbx_dom_weak = "*"
rbx_xml = "*"
rbx_binary = "*"
