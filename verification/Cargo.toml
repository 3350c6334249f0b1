[package]
name = "mesh2vtk"
version = "0.1.0"
edition = "2021"

[dependencies]
anyhow = "*"
clap = { version = "*", features = ["derive"] }
log = "*"
stderrlog = "*"
