pub mod decimal;
pub mod raster;
pub mod tile;
pub mod tile_loader;
pub mod url_provider;

pub use crate::raster::{decode_raster, Raster};
pub use crate::tile::{DyadicRect, TileId};
pub use crate::tile_loader::{DummyLoader, FetchJob, FetchState, JobEvent, JobStep, Lookup, TileLoader, TileStates};
pub use crate::url_provider::{MapBoxTileUrlProvider, OsmStandardTileUrlProvider, TileUrlProvider};
