//! Tile bookkeeping for a slippy-map client, and the pixel overlays that its
//! server draws on top of the map.

pub mod codec;
pub mod config;
pub mod map;
pub mod server;
pub mod text;
