[package]
name = "snake_engine"
version = "0.1.0"
edition = "2021"
publish = false

[dependencies]
rand = "=0.6.5"
colored = "=1.9.4"
console = "=0.16.6"
dialoguer = "=0.4.0"
indicatif = "=0.11.0"
genevo = "=0.7.1"
rayon = "=1.12.0"
chrono = "=0.4.45"
ctrlc = "=3.5.2"
lazy_static = "=1.5.1"
