use vstd::prelude::*;

verus! {

/// The errors that the library's own operations report.
#[derive(Debug, Clone, Copy, PartialEq, Eq, Structural)]
pub enum Error {
    /// A blit destination rectangle does not fit inside the target image.
    BlitOutOfBounds { x: u32, y: u32, width: u32, height: u32, img_width: u32, img_height: u32 },
    /// A blit source buffer holds fewer bytes than the rectangle needs.
    BlitBufferTooSmall { expected: usize, actual: usize },
    /// A read rectangle does not fit inside the source image.
    ReadOutOfBounds { x: u32, y: u32, width: u32, height: u32, img_width: u32, img_height: u32 },
    /// A read destination buffer holds fewer bytes than the rectangle needs.
    ReadBufferTooSmall { expected: usize, actual: usize },
    /// The pixel buffer given to an image is smaller than its dimensions need.
    ImageBufferTooSmall { expected: usize, actual: usize },
    /// A piece of text was too big to fit in a glyph atlas.
    TextTooBig,
    /// The bytes given to an image loader are not an image in a format it can decode.
    ImageDecode,
}

} // verus!
