[package]
name = "kazsearch_core"
version = "0.1.0"
edition = "2021"
publish = false

[dependencies]
unicode-normalization = "0.1"
jni = "0.22"
pgrx = { version = "0.16", default-features = false }
