[package]
name = "wavebase"
version = "0.1.0"
edition = "2021"
publish = false

[dependencies]
serde = { version = "1", features = ["derive"] }
rusqlite = { version = "*", features = ["bundled"] }
r2d2 = "*"
r2d2_sqlite = "*"
rodio = "0.20"
symphonia = { version = "0.5", features = ["all"] }
lofty = "*"
stratum-dsp = "*"
walkdir = "2"
tokio = { version = "1", features = ["rt", "rt-multi-thread"] }
