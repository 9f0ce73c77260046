use vstd::prelude::*;

verus! {

/// Virtual address at which the boot loader maps the framebuffer.
pub const FRAMEBUFFER: u64 = 0x000f_8000_0000;

/// Bytes per framebuffer line.
pub const FRAMEBUFFER_STRIDE: u64 = 1280 * 3;

/// Bytes per pixel.
pub const BYTES_PER_PIXEL: u64 = 4;

/// The address at which the pixel at column `x`, line `y` is written.
pub fn pixel_address(x: u64, y: u64) -> (r: u64)
    requires
        FRAMEBUFFER + y * FRAMEBUFFER_STRIDE + x * BYTES_PER_PIXEL <= u64::MAX,
    ensures
        r == FRAMEBUFFER + y * FRAMEBUFFER_STRIDE + x * BYTES_PER_PIXEL,
{
    assert(y * FRAMEBUFFER_STRIDE >= 0 && x * BYTES_PER_PIXEL >= 0) by (nonlinear_arith);
    FRAMEBUFFER + y * FRAMEBUFFER_STRIDE + x * BYTES_PER_PIXEL
}

} // verus!
