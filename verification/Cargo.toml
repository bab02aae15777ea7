[package]
name = "xxtab"
version = "0.1.3"
edition = "2021"
publish = false

[dependencies]
anyhow = "1"
base64 = "=0.22.1"
fastwebsockets = { version = "=0.10.0", features = ["upgrade", "unstable-split"] }
http-body-util = "0.1"
hyper = { version = "1", features = ["client", "http1"] }
hyper-util = { version = "0.1", features = ["tokio"] }
ipnet = "=2.12.2"
libc = "0.2"
rustls = { version = "0.23", default-features = false, features = ["ring", "std", "tls12"] }
rustls-pemfile = "2"
serde = { version = "1", features = ["derive"] }
serde_json = "=1.0.154"
sha2 = "=0.10.9"
socket2 = { version = "0.6", features = ["all"] }
tempfile = "3"
tokio = { version = "1", features = ["io-util", "macros", "net", "rt", "signal", "sync", "time"] }
tokio-rustls = { version = "0.26", default-features = false, features = ["ring", "tls12"] }
toml = "=1.1.8"
url = "=2.5.8"
webpki-roots = "1"
windows-sys = { version = "0.61", features = ["Win32_Foundation", "Win32_Graphics_Gdi", "Win32_Networking_WinHttp", "Win32_System_LibraryLoader", "Win32_System_SystemInformation", "Win32_System_SystemServices", "Win32_System_Threading", "Win32_UI_Controls", "Win32_UI_Controls_Dialogs", "Win32_UI_HiDpi", "Win32_UI_Input_KeyboardAndMouse", "Win32_UI_Shell", "Win32_UI_WindowsAndMessaging"] }
