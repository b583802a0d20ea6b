[package]
name = "syn_state_machine"
version = "0.1.0"
edition = "2021"
publish = false

[dependencies]
proc-macro2 = "1"
litrs = "0.4"
