[package]
name = "polirag"
version = "0.1.0"
edition = "2021"
publish = false

[dependencies]
anyhow = "=1.0.104"
async-stream = "=0.3.6"
bincode = "=1.3.3"
clap = { version = "=4.6.7", features = ["derive"] }
cookie = "=0.18.2"
cookie_store = "=0.22.1"
crossterm = "=0.29.0"
dirs = "=7.0.0"
dotenv = "=0.15.0"
futures = "=0.3.34"
hnsw_rs = { version = "=0.3.5", default-features = false }
pdf-extract = { version = "=0.12.1", default-features = false }
ratatui = { version = "=0.30.2", default-features = false, features = ["crossterm"] }
ratatui-core = "=0.1.2"
pulldown-cmark = { version = "=0.13.5", default-features = false }
reqwest = { version = "=0.12.28", default-features = false, features = ["json", "stream", "cookies"] }
reqwest_cookie_store = "=0.9.0"
serde = { version = "=1.0.229", features = ["derive"] }
serde_json = "=1.0.154"
text-splitter = "=0.33.0"
textwrap = "=0.16.4"
tokio = { version = "=1.54.1", features = ["rt-multi-thread", "macros", "sync", "time"] }
tracing = "=0.1.44"
tui-markdown = { version = "=0.3.12", default-features = false }
tracing-appender = "=0.2.5"
tracing-subscriber = { version = "=0.3.23", features = ["env-filter"] }
url = "=2.5.8"
walkdir = "=2.5.0"
zip = { version = "=9.1.0", default-features = false, features = ["deflate"] }
