[package]
name = "credit_card_billsplit"
version = "0.1.0"
edition = "2021"
publish = false

[dependencies]
pdfium-render = "*"
