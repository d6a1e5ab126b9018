[package]
name = "fini"
version = "0.1.0"
edition = "2021"
publish = false

[dependencies]
arboard = "*"
chrono = "*"
clap = { version = "*", features = ["derive"] }
colored = "*"
config = "*"
directories = "*"
edit = "*"
glob = "*"
inquire = { version = "*", features = ["date"] }
regex = "*"
rustyline = "*"
serde = { version = "*", features = ["derive"] }
serde_json = "*"
strip-ansi-escapes = "*"
tempfile = "*"
webbrowser = "*"

[dev-dependencies]
chrono = "*"
strip-ansi-escapes = "*"
tempfile = "*"
