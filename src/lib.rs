//! A raster tile server's core: the slippy-tile grid, the layer catalogue,
//! style files, tile colourising and serving statistics.
//!
//! Coordinates and samples are exact integers here: tile bounds are fractions
//! of the Web Mercator half-extent, and raster samples arrive normalised to a
//! fixed-point range, so every rule of the pipeline is checked without floats.

mod catalogue;
mod config;
mod geometry;
mod reader;
mod render;
mod stats;
mod style;
mod summary;
mod text;
mod tiles;

pub use catalogue::{
    is_cog_layout, is_unchanged, key_for, raster_file, LayerCatalogue, LayerEntry, RasterFile,
};
pub use config::{Config, Source, DEFAULT_PORT};
pub use geometry::{
    cached_geometry_targets, projection_path, ProjectionPath, EPSG_WEB_MERCATOR, EPSG_WGS84,
};
pub use reader::{resolve_tile, TileError, TileJob, TileResponse};
pub use render::{
    clip_to_envelope, colourise, render_tile, Palette, PlacedStop, RenderError, Rgba, SAMPLE_ONE,
};
pub use stats::{dashboard_frame, DashboardFrame, Growth, TileStats};
pub use style::{
    is_builtin_palette, parse_stops, parse_u8, style_stop_fields, NumberError, StopField,
    StopFields, StyleError, StyleStop,
};
pub use summary::{summarise_styles, StyleSummary};
pub use tiles::{is_valid_tile, tile_bounds, TileBounds, MAX_ZOOM};
