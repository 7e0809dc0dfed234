[package]
name = "ptts"
version = "0.1.0"
edition = "2021"
publish = false

[dependencies]
anyhow = "=1.0.104"
axum = { version = "=0.8.9", default-features = false, features = ["http1", "tokio", "ws"] }
base64 = "=0.22.1"
futures-util = { version = "=0.3.34", default-features = false, features = ["std", "sink"] }
hf-hub = { version = "=1.0.0", default-features = false }
rand = "=0.9.5"
rand_distr = "=0.5.1"
rubato = { version = "=0.16.2", default-features = false, features = ["fft_resampler"] }
serde = { version = "=1.0.229", features = ["derive"] }
serde_json = "=1.0.154"
symphonia = { version = "=0.5.5", default-features = false, features = ["wav", "pcm"] }
thiserror = "=2.0.21"
tokio = { version = "=1.54.1", features = ["macros", "rt-multi-thread", "net", "signal", "sync"] }
tower-http = { version = "=0.6.11", default-features = false, features = ["trace"] }
tracing = "=0.1.44"
tracing-subscriber = { version = "=0.3.23", default-features = false, features = ["std", "fmt", "env-filter"] }
uuid = { version = "=1.29.0", features = ["v4"] }
xn = "=0.2.13"
