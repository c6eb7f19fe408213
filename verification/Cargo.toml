[package]
name = "typed_table"
version = "0.1.0"
edition = "2021"
publish = false

[dependencies]
heed = "=0.11.0"
nostr-types = "=0.4.0"
speedy = "=0.8.7"

[dev-dependencies]
tempfile = "=3.27.0"
