[package]
name = "sassytalkie"
version = "0.1.0"
edition = "2021"
publish = false

[dependencies]
hkdf = "=0.12.4"
sha2 = "=0.10.9"
base64 = "=0.22.1"
crc32fast = "=1.5.4"
aes-gcm = "=0.10.3"
x25519-dalek = "=2.0.1"
rand = "=0.8.8"
uuid = { version = "=1.29.0", features = ["v4"] }
zeroize = "=1.9.1"
ml-kem = { version = "=0.3.4", features = ["getrandom", "zeroize"] }
serde = { version = "=1.0.229", features = ["derive"] }
serde_json = "=1.0.154"
bincode = "=1.3.3"
thiserror = "=1.0.69"
ringbuf = "0.3"
socket2 = "0.5"
hostname = "0.4"
libc = "0.2"
