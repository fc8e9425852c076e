[package]
name = "sdu_openrss"
version = "0.2.0"
edition = "2021"
publish = false

[dependencies]
chrono = "0.4"
html_parser = "*"
rss = "*"
fantoccini = { version = "*", default-features = false, features = ["rustls-tls"] }
tokio = { version = "1", features = ["macros", "rt-multi-thread", "time"] }
serde_json = "1"
ellipse = "*"
webdriver = "*"
