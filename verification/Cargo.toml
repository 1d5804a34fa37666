[package]
name = "emergency_backup"
version = "0.1.0"
edition = "2021"
publish = false

[dependencies]
chrono = "0.4"
sysinfo = "0.32"
rdev = "0.5"
num_cpus = "1"
auto-launch = "0.5"
