[package]
name = "lmake_md_to_doc_comments"
version = "0.5.4"
edition = "2021"
publish = false

[dependencies]
regex = "1"
glob = "0.3"
clap = "2"
ansi_term = "0.12"
unwrap = "1"
