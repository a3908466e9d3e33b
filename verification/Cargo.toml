[package]
name = "cheminee_similarity_model"
version = "0.1.0"
edition = "2021"
publish = false

[dependencies]
eyre = "*"
log = "*"
tensorflow = "*"
