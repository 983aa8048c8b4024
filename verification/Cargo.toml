[package]
name = "remotefs"
version = "0.1.0"
edition = "2021"
publish = false

[dependencies]
actix-web = { version = "4", default-features = false, features = ["macros"] }
anyhow = "1"
axum = "0.8"
ctrlc = "3"
dokan = "*"
dotenvy = "0.15"
env_logger = "0.11"
fuser = { version = "*", default-features = false }
futures-util = "0.3"
http-body-util = "0.1"
httpdate = "1"
libc = "0.2"
local-ip-address = "*"
log = "0.4"
moka = { version = "0.12", features = ["future"] }
reqwest = { version = "0.12", default-features = false, features = ["json", "blocking", "stream"] }
serde = { version = "1", features = ["derive"] }
serde_json = "1"
tokio = { version = "1", features = ["full"] }
tokio-util = { version = "0.7", features = ["io"] }
urlencoding = "2"
widestring = "1"
