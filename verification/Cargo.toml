[package]
name = "ikigai_shacl"
version = "0.1.0"
edition = "2021"
publish = false

[dependencies]
async-trait = "=0.1.92"
ikigai-core = "=0.2.12"
mie = "=0.3.18"
oxrdf = { version = "=0.3.5", features = ["rdf-12"] }
prefixmap = "=0.3.18"
rudof_config = "=0.3.18"
rudof_iri = "=0.3.18"
rudof_rdf = "=0.3.18"
rudof_typing = "=0.3.18"
rudof_viz = "=0.3.18"
serde = { version = "=1.0.229", features = ["derive"] }
serde_json = "=1.0.154"
shacl = "=0.3.18"
sparql_service = "=0.3.18"
