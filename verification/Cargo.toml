[package]
name = "unit_converter"
version = "0.1.0"
edition = "2021"
publish = false

[dependencies]
log = "=0.4.34"
pretty_env_logger = "=0.4.0"
reqwest = { version = "=0.11.27", features = ["blocking", "json"] }
serde = { version = "=1.0.229", features = ["derive"] }
# Not used directly: holds a dependency of teloxide to the release that the
# compiler in use still builds.
takecell = "=0.1.1"
teloxide = { version = "=0.12.2", features = ["macros"] }
tokio = { version = "=1.54.1", features = ["rt-multi-thread", "macros", "time"] }
