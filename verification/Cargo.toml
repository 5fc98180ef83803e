[package]
name = "ipchanger"
version = "0.1.0"
edition = "2021"
publish = false

[dependencies]
anyhow = "1"
config = { version = "*", default-features = false, features = ["toml"] }
netwatcher = "*"
owo-colors = "*"
serde = { version = "1", features = ["derive"] }
sled = "0.34"
thiserror = "*"
toml = "*"
winapi = { version = "0.3", features = ["consoleapi", "processenv", "winbase", "wincon"] }

[dev-dependencies]
regex = "1"
