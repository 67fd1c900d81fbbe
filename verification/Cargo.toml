[package]
name = "basic-snmp-agent"
version = "0.1.0"
edition = "2021"
publish = false

[dependencies]
arbitrary = { version = "1", features = ["derive"] }

[dev-dependencies]
rasn = "=0.22.2"
rasn-smi = "=0.22.2"
rasn-snmp = "=0.22.2"
