[package]
name = "wikidata_extract"
version = "0.1.0"
edition = "2021"
publish = false

[dependencies]
serde_json = "1"
rmp-serde = "1"
csv = "1"
rayon = "1"
md5 = "0.7"
base64 = "0.22"
ureq = "2"
