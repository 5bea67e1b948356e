[package]
name = "roblox_mcp"
version = "0.1.0"
edition = "2021"
publish = false

[dependencies]
rbx_dom_weak = "*"
rbx_xml = "*"
serde = { version = "*", features = ["derive"] }
serde_json = "*"
clap = "*"
dotenv = "*"
reqwest = { version = "*", default-features = false, features = ["json"] }
tokio = { version = "*", features = ["macros", "rt-multi-thread"] }
