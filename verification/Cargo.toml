[package]
name = "vcg_auction"
version = "0.1.0"
edition = "2021"
publish = false

[dependencies]
cosmwasm-schema = "1.5"
cosmwasm-std = "1.5"
cw-storage-plus = "1.2"
cw2 = "1.1"
thiserror = "1.0"
yew = { version = "0.21", features = ["csr"] }

[dev-dependencies]
rand = "0.8"
