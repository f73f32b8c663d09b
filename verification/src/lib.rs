//! Planning, parsing and naming logic for the offline map-data pipeline.
pub mod catalog;
pub mod cli;
pub mod desktop;
pub mod download;
pub mod elevation;
pub mod elevation_tiles;
pub mod external;
pub mod geotiff;
pub mod hgt;
pub mod link;
pub mod options;
pub mod package;
pub mod planetiler;
pub mod poly;
pub mod presets;
pub mod progress;
pub mod render;
pub mod routing;
pub mod runner;
pub mod settings;
pub mod state;
pub mod step_ids;
pub mod steps;
pub mod text;
pub mod tiff;
pub mod tilemask;
pub mod tileserver;
pub mod toolchain;
pub mod valhalla;
