[package]
name = "sbash"
version = "0.1.0"
edition = "2021"
publish = false

[dependencies]
bytecount = "0.6"
clap = "3"
clap_complete = "3"
indoc = "1"
nom = "7"
nom_locate = "4"
nom-greedyerror = "*"
thiserror = "1"
