//! Verified bookkeeping for a 2D immediate-mode renderer: a texture-atlas
//! allocator, the texture and glyph caches built on it, and the batcher that
//! groups queued vertices by the resource they are drawn with.
//!
//! Rectangles inside an atlas page are held in whole pixels, and the position
//! of a vertex inside a texture in half pixels; dividing them by the page's
//! size, to get texture coordinates, is left to the caller. The positions of
//! vertices on screen and their colours are single-precision numbers, which
//! the library carries as bit patterns and never computes with.

pub mod lookup;
pub mod rect;
pub mod tex;
pub mod binary_tree;
pub mod tex_cache;
pub mod renderer;
pub mod font;
pub mod font_cache;
pub mod font_data;
pub mod controller;

pub use crate::binary_tree::{BinaryTreeNode, PackRectError};
pub use crate::rect::Rect;
pub use crate::tex::{CacheTexError, TexHandle};
pub use crate::tex_cache::{
    decode_image, AtlasPage, CachedImage, DecodedImage, GliumTexCache, GliumTexHandleLookup,
    Placement, TexCacheView, TexHandleLookup,
};
pub use crate::renderer::{DrawBatch, DrawCall, Renderer, TexSource, TexType, Vertex, VBO_SIZE};
pub use crate::font::{
    gen_charset, CacheGlyphError, CacheReadError, Charset, FontHandle, FontSpec,
};
pub use crate::font_cache::{
    FontCacheView, GliumFontCache, GliumGlyphLookup, GlyphEntry, GlyphLookup, GlyphMetrics,
    GlyphSource, PixelBox,
};
pub use crate::controller::{GlyphStep, RenderTextureError, RendererController};
