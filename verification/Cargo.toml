[package]
name = "v3_pool_sim"
version = "0.1.0"
edition = "2021"
publish = false

[dependencies]
uniswap_v3_math = "=0.4.1"
ethers = { version = "=2.0.14", default-features = false }
num-bigfloat = "*"
serde = { version = "*", features = ["derive"] }
async-trait = "*"
futures = "*"
