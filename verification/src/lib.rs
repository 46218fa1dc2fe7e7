//! Assembly of slippy-map tile imagery into one contiguous raster.
//!
//! The library covers the integer pipeline of a tile downloader: resolving
//! the tile-index and pixel ranges that cover a requested bounding box,
//! building per-tile request URLs from a template, decoding fetched tile
//! bytes, and compositing decoded tiles into an output raster. Network
//! access, the floating-point map projection and all file handling live in
//! the surrounding application, which hands this library plain integer and
//! byte values.

pub mod args;
pub mod assemble;
pub mod codec;
pub mod grid;
pub mod raster;
pub mod url;

pub use args::Args;
pub use assemble::FetchedTile;
pub use assemble::assemble;
pub use codec::decode_tile;
pub use grid::PixelPoint;
pub use grid::TileGrid;
pub use grid::resolve_grid;
pub use raster::Raster;
pub use url::build_url;
