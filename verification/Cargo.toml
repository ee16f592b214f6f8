[package]
name = "gorgeous"
version = "0.1.0"
edition = "2021"
publish = false

[dependencies]
pprint = "0.3.4"
parse_that = "0.3.0"
bbnf = "0.2.4"
bbnf-ir = "*"
bbnf_derive = "0.2.3"
