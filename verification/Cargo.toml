[package]
name = "circuit_core"
version = "0.1.0"
edition = "2021"
publish = false

[dependencies]
atomic-waker = "=1.1.2"
crossbeam-queue = "=0.3.14"
ff = "=0.13.1"
futures = "=0.3.34"
halo2curves = "=0.6.1"
itertools = "=0.15.0"
num-bigint = "=0.4.8"
