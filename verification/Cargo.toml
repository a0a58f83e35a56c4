[package]
name = "game_information_counter"
version = "0.1.0"
edition = "2021"
publish = false

[dependencies]
eldenring = "*"
fromsoftware-shared = "*"
hudhook = "0.9"
retour = "*"
