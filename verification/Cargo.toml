[package]
name = "lune_core"
version = "0.1.0"
edition = "2021"
publish = false

[dependencies]
base64 = "0.21"
futures-util = "0.3"
mlua = { version = "0.9", features = ["luau", "luau-jit", "async", "unstable"] }
mlua-luau-scheduler = "*"
rbx_dom_weak = "2"
