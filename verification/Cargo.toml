[package]
name = "a_two_a_agent_card_skill_governor"
version = "0.1.0"
edition = "2021"
publish = false

[dependencies]
anyhow = "1.0"
pdk = "1.9.0"
serde = { version = "1.0", features = ["derive"] }
serde_json = "1.0"
