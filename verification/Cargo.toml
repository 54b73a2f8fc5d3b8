[package]
name = "transys"
version = "0.1.0"
edition = "2021"
publish = false

[dependencies]
aig = "*"
logic-form = "*"
minisat = "*"
satif = "*"
satif-cadical = "*"
satif-minisat = "*"
