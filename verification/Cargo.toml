[package]
name = "sudoku_circuit"
version = "0.1.0"
edition = "2021"
publish = false

[dependencies]
itertools = "=0.10.5"
ndarray = "=0.15.6"
