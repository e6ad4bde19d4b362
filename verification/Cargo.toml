[package]
name = "notepadppp"
version = "0.1.0"
edition = "2021"
publish = false

[dependencies]
ropey = "=1.6.1"
regex = "=1.13.1"
serde = { version = "=1.0.229", features = ["derive"] }
serde_json = "=1.0.154"
dirs = "=5.0.1"
sha2 = "=0.10.9"
sha1 = "=0.10.7"
md-5 = "=0.10.6"
crc32fast = "=1.5.4"
base64 = "=0.22.1"
glob-match = "=0.2.1"
walkdir = "=2.5.0"
log = "=0.4.35"
capstone = "0.12"
goblin = "0.8"
pdb = "0.8"
