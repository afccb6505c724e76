[package]
name = "print_dispatch"
version = "0.1.0"
edition = "2021"
publish = false

[dependencies]
actix = "0.13"
anyhow = "1"
dotenv = "0.15"
log = "0.4"
log4rs = "1"
rumqttc = "0.24"
