[package]
name = "boxdoc"
version = "0.2.0"
edition = "2021"
publish = false

[dependencies]
base64 = "0.22"
image = { version = "0.25", default-features = false, features = ["png", "jpeg", "bmp", "webp", "ico"] }
zip = { version = "2", default-features = false, features = ["deflate"] }
serde = { version = "1", features = ["derive"] }
serde_json = "1"
egui = "0.31"
eframe = { version = "0.31", default-features = false, features = ["glow", "default_fonts", "x11"] }
rfd = { version = "0.15", default-features = false, features = ["xdg-portal", "tokio"] }
printpdf = { version = "0.7", default-features = false }
