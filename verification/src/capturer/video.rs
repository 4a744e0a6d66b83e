//! Turning captured textures into raw video frames.
use vstd::prelude::*;
use crate::image::{concat_rows, pack_rows, pitched_rows, rows_in_bounds};

verus! {

/// Raw-video output of captured textures.
pub struct VideoData {}

impl VideoData {
    /// The scanlines of a mapped 4-byte-per-pixel texture, `row_pitch`
    /// bytes apart, as one contiguous frame of `height` lines of `width`
    /// pixels, ready to be piped to an encoder.
    pub fn frame_buffer(data: &[u8], width: u32, height: u32, row_pitch: u32) -> (r: Vec<u8>)
        requires
            width as int * 4 <= u32::MAX,
            height == 0 || (height - 1) as int * row_pitch as int <= u32::MAX,
            rows_in_bounds(data@.len() as int, 0, row_pitch as int, width as int * 4, height as nat),
        ensures
            r@ == concat_rows(pitched_rows(data@, 0, row_pitch as int, width as int * 4, height as nat), false),
    {
        pack_rows(data, width, height, row_pitch, false)
    }
}

} // verus!
