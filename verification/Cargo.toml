[package]
name = "sixty-six"
version = "0.1.0"
edition = "2021"
publish = false

[dependencies]
rand = "=0.9.5"
rand_chacha = "=0.9.0"
sha2 = "=0.10.9"
serde = { version = "=1.0.229", features = ["derive"] }
serde_json = "=1.0.154"
thiserror = "=2.0.21"
tokio = { version = "=1.54.1", features = ["macros", "rt-multi-thread", "time"] }
sqlx = { version = "=0.8.6", default-features = false, features = ["sqlite", "runtime-tokio"] }
topcoat = { version = "=0.4.0", features = ["htmx"] }
topcoat-core = "=0.4.0"
topcoat-view = "=0.4.0"
topcoat-view-macro = "=0.4.0"
topcoat-router = "=0.4.0"
topcoat-router-macro = "=0.4.0"
topcoat-runtime = "=0.4.0"
inventory = "=0.3.25"
