[package]
name = "qrbill"
version = "0.1.0"
edition = "2021"
publish = false

[dependencies]
deunicode = "*"
chrono = "*"
iban = "*"
isocountry = "*"
qrcode = "*"
regex = "*"
svg = "*"
svg2pdf = "*"
textwrap = "*"
thiserror = "*"
thousands = "*"
