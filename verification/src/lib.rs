//! Barcode labels for inventory items: text sanitizing, Code 39 encoding,
//! and rendering of the encoded module train as JSON, SVG and raster layouts.

pub mod barcode;
pub mod commands;
pub mod compositor;
pub mod config;
pub mod error;
pub mod json;
pub mod raster;
pub mod sanitize;
pub mod svg;
pub mod symbology;
pub mod text;
