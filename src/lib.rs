//! Texture-atlas bookkeeping for a terminal's glyph renderer: geometry value
//! types, a grid allocator per page, pages and the multi-page atlas, and
//! chained tilesets that map character codes to placed tiles.

pub mod point;
pub mod size;
pub mod rectangle;
pub mod shape;
pub mod error;
pub mod allocator;
pub mod atlas;
pub mod tileset;
