[package]
name = "postgres_backend"
version = "0.1.0"
edition = "2021"
publish = false

[dependencies]
async-trait = "=0.1.92"
lazy_static = "=1.5.1"
serde_json = "=1.0.154"
sqlx = { version = "=0.8.6", default-features = false, features = ["postgres", "runtime-tokio"] }
tokio = { version = "=1.54.1", default-features = false, features = ["rt-multi-thread"] }
zenoh = { version = "=1.0.4", default-features = false, features = ["unstable", "internal"] }
zenoh_backend_traits = "=1.0.4"
zenoh-plugin-trait = { version = "=1.0.4", default-features = false }
zenoh-util = { version = "=1.0.4", default-features = false }
# The plugin names none of the crates below. This release of zenoh asks for
# its own parts by a caret requirement, which lets cargo pair it with parts
# of a later release that it does not compile against. The lines hold every
# part to the release of zenoh itself.
zenoh-buffers = { version = "=1.0.4", default-features = false }
zenoh-codec = { version = "=1.0.4", default-features = false }
zenoh-collections = { version = "=1.0.4", default-features = false }
zenoh-core = { version = "=1.0.4", default-features = false }
zenoh-crypto = { version = "=1.0.4", default-features = false }
zenoh-keyexpr = { version = "=1.0.4", default-features = false }
zenoh-macros = { version = "=1.0.4", default-features = false }
zenoh-protocol = { version = "=1.0.4", default-features = false }
zenoh-result = { version = "=1.0.4", default-features = false }
zenoh-runtime = { version = "=1.0.4", default-features = false }
zenoh-sync = { version = "=1.0.4", default-features = false }
zenoh-task = { version = "=1.0.4", default-features = false }
