[package]
name = "birthcal"
version = "0.1.0"
edition = "2021"
publish = false

[dependencies]
cgi = "=0.8.0"
html = "=0.6.3"
ical = "=0.11.0"
percent-encoding-rfc3986 = "=0.1.3"
ureq = "=3.5.0"
