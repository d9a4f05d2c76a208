[package]
name = "xemanh"
version = "0.1.0"
edition = "2021"
publish = false

[dependencies]
image = { version = "0.24", default-features = false, features = ["gif", "jpeg", "png", "bmp", "tga"] }
macroquad = "0.4"
md-5 = "0.10"
objc = "0.2"
serde_json = "1"
ureq = "2"
winapi = { version = "0.3", features = ["minwindef", "sddl", "minwinbase", "processthreadsapi", "winbase", "winnt", "winreg", "sysinfoapi", "securitybaseapi", "timezoneapi"] }
