[package]
name = "scope_hoist"
version = "0.1.0"
edition = "2021"
publish = false

[dependencies]
serde = { version = "=1.0.203", features = ["derive"] }
swc_atoms = "=0.2.5"
swc_common = "=0.10.23"
swc_ecmascript = { version = "=0.29.1", features = ["parser", "codegen", "visit", "transforms"] }

# The generated names carry the digests of swc_atoms' words. A digest is made by
# string_cache from the set of words that string_cache_codegen builds, so both
# are held to the versions that this version of swc_atoms was made with.
string_cache = "=0.8.1"
string_cache_codegen = "=0.5.1"

# swc_common 0.10 builds with this scoped-tls only, and the macros of
# swc_ecmascript 0.29 with this swc_macros_common only.
scoped-tls = "=1.0.0"
swc_macros_common = "=0.3.6"
