[package]
name = "job_scheduler"
version = "0.1.0"
edition = "2021"
publish = false

[dependencies]
chrono = "0.4"
crossterm = "0.27"
directories = "5"
ratatui = "0.23"
