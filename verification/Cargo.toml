[package]
name = "porteurbars"
version = "0.1.0"
edition = "2021"
publish = false

[dependencies]
handlebars = "=6.4.4"
difference = "=2.0.0"
walkdir = "=2.5.0"
term = "=1.2.1"
Inflector = "=0.11.4"
tempdir = "=0.3.7"
clap = "=4.6.7"
git2 = { version = "=0.21.0", default-features = false, features = ["cred"] }
