[package]
name = "gamepath_engine"
version = "0.1.0"
edition = "2021"
publish = false

[dependencies]
aes = "=0.8.4"
aes-gcm = "=0.10.3"
base64 = "=0.22.1"
chacha20poly1305 = "=0.10.1"
ctr = "=0.9.2"
hkdf = "=0.12.4"
hmac = "=0.12.1"
md-5 = "=0.10.6"
rand = "=0.9.5"
rustls = { version = "=0.23.46", default-features = false, features = ["ring", "std", "tls12", "logging"] }
rustls-pemfile = "=2.2.0"
serde = { version = "=1.0.229", features = ["derive"] }
serde_json = "=1.0.154"
sha1 = "=0.10.7"
sha2 = "=0.10.9"
socket2 = "=0.5.10"
windows-sys = { version = "0.52", features = ["Win32_Foundation", "Win32_NetworkManagement_IpHelper", "Win32_NetworkManagement_Ndis", "Win32_NetworkManagement_Rras", "Win32_Networking_WinSock"] }
wintun = "0.5"
