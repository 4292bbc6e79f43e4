//! Image and icon tooling for app launches: the deterministic parts of logo
//! generation, icon flattening and resizing, device mockup composition,
//! collage layout, and reading what the capture tools print.

pub mod capture;
pub mod collage;
pub mod edge_blend;
pub mod generate_logo;
pub mod imaging;
pub mod mockup;
pub mod naming;
pub mod output_image;
pub mod raster;
pub mod resize;
pub mod rng;
pub mod symbols;
pub mod text;
