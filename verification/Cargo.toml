[package]
name = "fspy"
version = "0.1.0"
edition = "2021"
publish = false

[dependencies]
uuid = { version = "=1.29.0", features = ["v4"] }
libc = "=0.2.191"
iced-x86 = { version = "=1.22.0", default-features = false, features = ["std", "decoder", "instr_info"] }
object = { version = "=0.40.0", default-features = false, features = ["read_core", "elf", "std"] }
base64 = "=0.22.1"
wincode = { version = "=0.6.3", features = ["derive"] }
seccompiler = "*"
