[package]
name = "session_mux"
version = "0.1.0"
edition = "2021"
publish = false

[dependencies]
anyhow = "=1.0.104"
daemonize = "=0.5.0"
failure = "=0.1.8"
libc = "=0.2.191"
log = "=0.4.34"
portable-pty = "=0.9.0"
pretty_env_logger = "=0.5.0"
structopt = "=0.3.26"
tabout = "=0.3.0"
termwiz = "0.16"
