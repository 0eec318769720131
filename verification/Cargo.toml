[package]
name = "rcheckbook"
version = "0.4.5"
edition = "2021"
publish = false

[dependencies]
bcheck = "=0.4.1"
calamine = "=0.37.0"
chrono = "=0.4.45"
clap = { version = "=4.6.7", features = ["derive"] }
icu_locid = "=1.5.0"
qif = "=0.1.0"
rusqlite = { version = "=0.41.0", features = ["bundled"] }
shellexpand = "=3.1.2"
spreadsheet-ods = "=0.25.1"
xlsxwriter = "=0.6.1"
