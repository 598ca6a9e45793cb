//! Upscaling of the frame buffer for presentation: every cell becomes a
//! SCALE x SCALE block of pixels, lit cells white, dark cells black.

use vstd::prelude::*;

use crate::state::SCREEN_HEIGHT;
use crate::state::SCREEN_WIDTH;

verus! {

pub const SCALE: usize = 10;

/// The color of output pixel `j` in the upscaled row-major image: white
/// exactly when the frame-buffer cell whose block contains `j` is lit.
pub open spec fn spec_scaled_pixel(buf: Seq<bool>, j: int) -> u32 {
    let stride = (SCREEN_WIDTH * SCALE) as int;
    let row = j / stride / (SCALE as int);
    let col = (j % stride) / (SCALE as int);
    if buf[row * (SCREEN_WIDTH as int) + col] {
        0xFFFFFFu32
    } else {
        0u32
    }
}

/// Stretches the 64x32 frame buffer to a 640x320 row-major pixel image.
pub fn get_display_translated(buf: &[bool]) -> (r: Vec<u32>)
    requires
        buf@.len() == SCREEN_WIDTH * SCREEN_HEIGHT,
    ensures
        r@.len() == SCREEN_WIDTH * SCREEN_HEIGHT * SCALE * SCALE,
        forall|j: int| 0 <= j < r@.len() ==> r@[j] == spec_scaled_pixel(buf@, j),
{
    let total: usize = SCREEN_WIDTH * SCREEN_HEIGHT * SCALE * SCALE;
    let mut out: Vec<u32> = Vec::new();
    let mut j: usize = 0;
    while j < total
        invariant
            buf@.len() == SCREEN_WIDTH * SCREEN_HEIGHT,
            total == SCREEN_WIDTH * SCREEN_HEIGHT * SCALE * SCALE,
            j <= total,
            out@.len() == j,
            forall|t: int| 0 <= t < j ==> out@[t] == spec_scaled_pixel(buf@, t),
        decreases total - j,
    {
        let col: usize = (j % (SCREEN_WIDTH * SCALE)) / SCALE;
        let row: usize = j / (SCREEN_WIDTH * SCALE) / SCALE;
        let src: usize = row * SCREEN_WIDTH + col;
        assert(src < SCREEN_WIDTH * SCREEN_HEIGHT);
        let val: u32 = if buf[src] {
            0xFFFFFF
        } else {
            0
        };
        out.push(val);
        j = j + 1;
    }
    out
}

} // verus!
