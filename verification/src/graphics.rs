//! Graphics primitives handed to a renderer.

use vstd::prelude::*;

verus! {

/// Raw texture bytes with their pixel dimensions.
pub struct TextureData<'a> {
    /// The pixel bytes, four per pixel, rows from the top.
    pub bytes: &'a [u8],
    /// Width and height in pixels.
    pub size: (u32, u32),
}

/// Byte-level view of data handed to a renderer.
pub trait AsBytes {
    /// The value's bytes, in the layout the renderer consumes.
    fn as_bytes(&self) -> &[u8];
}

} // verus!
