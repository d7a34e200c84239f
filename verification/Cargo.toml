[package]
name = "surface_area"
version = "0.1.0"
edition = "2021"
publish = false

[dependencies]
proj4rs = "*"
spade = "*"
geo = "*"
clap = { version = "*", features = ["derive"] }
env_logger = "*"
log = "*"
geojson = "*"
gpx = "*"
kml = "*"
walkdir = "*"
gdal = "*"
