[package]
name = "pg_amqp_bridge"
version = "0.1.0"
edition = "2021"
publish = false

[dependencies]
amqp = "*"
postgres = "*"
r2d2 = "*"
r2d2_postgres = "*"
fallible-iterator = "0.2"
log = "*"
env_logger = "*"
