//! Parsed command-line options.
//!
//! The surrounding application parses the command line and hands the result
//! over as this plain structure; every field is an already-parsed value.
//! Options left unset stay `None` and fall back to the preferences file.

use vstd::prelude::*;

verus! {

/// The program's command-line options.
pub struct Args {
    /// Preferences file path.
    pub prefs: String,
    /// Whether to open the result image in the default viewer.
    pub open: bool,
    /// URL template for the imagery.
    pub url: Option<String>,
    /// Tile size in pixels.
    pub tile_size: Option<u32>,
    /// Output directory.
    pub out_dir: Option<String>,
    /// Top-left corner coordinates.
    pub top_left: Option<String>,
    /// Bottom-right corner coordinates.
    pub bottom_right: Option<String>,
    /// Zoom level.
    pub zoom: Option<u8>,
}

} // verus!
