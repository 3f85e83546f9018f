[package]
name = "ace"
version = "0.1.0"
edition = "2021"
publish = false

[dependencies]
anyhow = "1"
async-openai = { version = "=0.18.3", default-features = false }
bytes = "=1.12.1"
crossbeam = "0.8"
deepgram = { version = "=0.5.0", default-features = false, features = ["prerecorded"] }
eframe = { version = "0.27", default-features = false, features = ["default_fonts", "glow"] }
egui = { version = "0.27", default-features = false }
egui_extras = { version = "0.27", default-features = false }
egui_node_graph2 = "=0.5.0"
ehttp = { version = "=0.5.0", default-features = false }
env_logger = { version = "0.10", default-features = false }
freeverb = "=0.1.0"
futures = "0.3"
once_cell = "1"
poll-promise = { version = "0.3", default-features = false }
serde = { version = "1", features = ["derive"] }
serde_json = "1"
stream-cancel = "0.8"
tokio = { version = "1", default-features = false, features = ["fs", "macros", "rt-multi-thread", "sync", "time"] }
