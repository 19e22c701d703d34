[package]
name = "cryptodropfile"
version = "0.1.0"
edition = "2021"
publish = false

[dependencies]
prost = "0.11"
sodiumoxide = "0.2"
hex = "0.4"
bytes = "1"
libflate = "1"
rustls = { version = "0.21", features = ["dangerous_configuration"] }
webpki-roots = "0.22"
local-ip-address = "0.5"
log = "0.4"
log4rs = { version = "1", default-features = false, features = ["console_appender", "file_appender", "pattern_encoder"] }
trait_enum = "0.5"
