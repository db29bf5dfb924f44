use vstd::prelude::*;
use crate::catalogue::{entry_matches, opt_str_view, LayerCatalogue};
use crate::render::RenderError;
use crate::tiles::{is_valid_tile, spec_tile_bounds, tile_bounds, tile_valid, TileBounds};

verus! {

/// An encoded tile and its media type.
pub struct TileResponse {
    pub bytes: Vec<u8>,
    pub content_type: String,
}

impl TileResponse {
    /// A PNG tile.
    pub fn png(bytes: Vec<u8>) -> (r: Self)
        ensures
            r.bytes == bytes,
            r.content_type@ == "image/png"@,
    {
        TileResponse { bytes, content_type: String::from_str("image/png") }
    }
}

/// Why a tile request failed.
#[derive(Debug, Clone)]
pub enum TileError {
    /// No layer of that name (in that style, when one is asked for).
    LayerNotFound(String),
    /// The zoom level or the column or row lies outside the tile grid.
    InvalidTile,
    /// The tile could not be drawn.
    Render(RenderError),
    /// The raster could not be read or warped.
    RasterFailed(String),
}

impl TileError {
    /// The text sent back to the client.
    pub fn message(&self) -> (r: String)
        ensures
            self matches TileError::LayerNotFound(name) ==> r@ == "Layer not found: '"@ + name@ + "'"@,
            self matches TileError::RasterFailed(m) ==> r@ == m@,
            self matches TileError::InvalidTile ==> r@ == "Tile outside the grid"@,
            self matches TileError::Render(RenderError::EmptyTile) ==> r@ == "Tile has no pixels"@,
            self matches TileError::Render(RenderError::EncodeFailed) ==> r@ == "PNG encoding failed"@,
    {
        match self {
            TileError::LayerNotFound(name) => String::from_str("Layer not found: '").concat(
                name.as_str(),
            ).concat("'"),
            TileError::InvalidTile => String::from_str("Tile outside the grid"),
            TileError::Render(RenderError::EmptyTile) => String::from_str("Tile has no pixels"),
            TileError::Render(RenderError::EncodeFailed) => String::from_str("PNG encoding failed"),
            TileError::RasterFailed(m) => m.clone(),
        }
    }
}

/// A tile to draw: which layer of the catalogue, and where.
#[derive(Debug, Clone, Copy)]
pub struct TileJob {
    pub layer_index: usize,
    pub bounds: TileBounds,
}

/// Decides what a request for tile `(z, x, y)` of `layer` draws: the first layer
/// of that name (in `style`, when one is given) and the tile's Web Mercator
/// bounds. A missing layer is reported before a tile outside the grid.
pub fn resolve_tile(
    catalogue: &LayerCatalogue,
    layer: &str,
    z: u8,
    x: u32,
    y: u32,
    style: Option<&str>,
) -> (r: Result<TileJob, TileError>)
    ensures
        (forall|j: int| 0 <= j < catalogue@.len() ==> !entry_matches(#[trigger] catalogue@[j], layer@, opt_str_view(style)))
            <==> (r matches Err(TileError::LayerNotFound(name)) && name@ == layer@),
        r matches Err(TileError::InvalidTile) <==> (exists|j: int| 0 <= j < catalogue@.len() && entry_matches(#[trigger] catalogue@[j], layer@, opt_str_view(style)))
            && !tile_valid(z, x, y),
        r matches Ok(job) ==> {
            &&& job.layer_index < catalogue@.len()
            &&& entry_matches(catalogue@[job.layer_index as int], layer@, opt_str_view(style))
            &&& forall|j: int| 0 <= j < job.layer_index ==> !entry_matches(#[trigger] catalogue@[j], layer@, opt_str_view(style))
            &&& tile_valid(z, x, y)
            &&& job.bounds == spec_tile_bounds(z, x, y)
        },
        r matches Err(TileError::LayerNotFound(_)) ==> forall|j: int| 0 <= j < catalogue@.len() ==> !entry_matches(#[trigger] catalogue@[j], layer@, opt_str_view(style)),
        (exists|j: int| 0 <= j < catalogue@.len() && entry_matches(#[trigger] catalogue@[j], layer@, opt_str_view(style)))
            && tile_valid(z, x, y) ==> r is Ok,
        r is Ok || r matches Err(TileError::LayerNotFound(_)) || r matches Err(TileError::InvalidTile),
{
    match catalogue.find(layer, style) {
        None => Err(TileError::LayerNotFound(String::from_str(layer))),
        Some(i) => {
            if !is_valid_tile(z, x, y) {
                return Err(TileError::InvalidTile);
            }
            Ok(TileJob { layer_index: i, bounds: tile_bounds(z, x, y) })
        },
    }
}

} // verus!
