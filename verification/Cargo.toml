[package]
name = "savings_account"
version = "0.1.0"
edition = "2021"
publish = false
