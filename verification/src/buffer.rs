//! The frame buffer: `WIDTH * HEIGHT` pixels in row-major order, four bytes
//! (red, green, blue, alpha) per pixel.

use vstd::prelude::*;
use crate::color::Color;

verus! {

/// Pixels per row.
pub const WIDTH: usize = 256;

/// Number of rows.
pub const HEIGHT: usize = 256;

/// Length in bytes of a frame buffer.
pub const FRAME_BYTES: usize = 262144;

/// Byte offset of the first channel of pixel `(x, y)`.
pub open spec fn offset(x: int, y: int) -> int {
    x * 4 + y * 256 * 4
}

/// `(x, y)` names a pixel of the grid.
pub open spec fn on_grid(x: int, y: int) -> bool {
    0 <= x < 256 && 0 <= y < 256
}

/// The colour that the bytes `buf` hold at pixel `(x, y)`.
pub open spec fn pixel(buf: Seq<u8>, x: int, y: int) -> Color {
    let o = offset(x, y);
    Color { r: buf[o], g: buf[o + 1], b: buf[o + 2], a: buf[o + 3] }
}

/// The bytes `buf` with the four channels of pixel `(x, y)` replaced by `color`.
pub open spec fn with_pixel(buf: Seq<u8>, x: int, y: int, color: Color) -> Seq<u8> {
    let o = offset(x, y);
    buf.update(o, color.r).update(o + 1, color.g).update(o + 2, color.b).update(o + 3, color.a)
}

/// A frame buffer is no more than its pixels: two buffers that agree on
/// every pixel of the grid hold the same bytes.
pub proof fn lemma_pixels_determine_bytes(a: Seq<u8>, b: Seq<u8>)
    requires
        a.len() == FRAME_BYTES,
        b.len() == FRAME_BYTES,
        forall|x: int, y: int| on_grid(x, y) ==> #[trigger] pixel(a, x, y) == pixel(b, x, y),
    ensures
        a == b,
{
    assert forall|k: int| 0 <= k < a.len() implies a[k] == b[k] by {
        let y = k / 1024;
        let x = (k % 1024) / 4;
        assert(on_grid(x, y));
        assert(offset(x, y) <= k < offset(x, y) + 4);
        assert(pixel(a, x, y) == pixel(b, x, y));
    }
    assert(a =~= b);
}

/// Writes `color` at pixel `(x, y)`: exactly the four bytes of that pixel
/// change, and every other pixel of the grid reads as before.
pub fn set_pixel(buf: &mut [u8], x: usize, y: usize, color: Color)
    requires
        old(buf)@.len() == FRAME_BYTES,
        x < WIDTH,
        y < HEIGHT,
    ensures
        final(buf)@ == with_pixel(old(buf)@, x as int, y as int, color),
        final(buf)@.len() == FRAME_BYTES,
        forall|i: int, j: int|
            on_grid(i, j) ==> #[trigger] pixel(final(buf)@, i, j) == if i == x && j == y {
                color
            } else {
                pixel(old(buf)@, i, j)
            },
{
    let o: usize = x * 4 + y * WIDTH * 4;
    buf[o] = color.r;
    buf[o + 1] = color.g;
    buf[o + 2] = color.b;
    buf[o + 3] = color.a;
}

/// Paints the whole grid with `color`.
pub fn fill(buf: &mut [u8], color: Color)
    requires
        old(buf)@.len() == FRAME_BYTES,
    ensures
        final(buf)@.len() == FRAME_BYTES,
        forall|i: int, j: int| on_grid(i, j) ==> #[trigger] pixel(final(buf)@, i, j) == color,
{
    let mut y: usize = 0;
    while y < HEIGHT
        invariant
            y <= HEIGHT,
            buf@.len() == FRAME_BYTES,
            forall|i: int, j: int| on_grid(i, j) && j < y ==> #[trigger] pixel(buf@, i, j) == color,
        decreases HEIGHT - y,
    {
        let mut x: usize = 0;
        while x < WIDTH
            invariant
                x <= WIDTH,
                y < HEIGHT,
                buf@.len() == FRAME_BYTES,
                forall|i: int, j: int|
                    on_grid(i, j) && (j < y || (j == y && i < x)) ==> #[trigger] pixel(buf@, i, j)
                        == color,
            decreases WIDTH - x,
        {
            set_pixel(buf, x, y, color);
            x += 1;
        }
        y += 1;
    }
}

/// Reads the colour at pixel `(x, y)`.
pub fn get_pixel(buf: &[u8], x: usize, y: usize) -> (color: Color)
    requires
        buf@.len() == FRAME_BYTES,
        x < WIDTH,
        y < HEIGHT,
    ensures
        color == pixel(buf@, x as int, y as int),
{
    let o: usize = x * 4 + y * WIDTH * 4;
    Color { r: buf[o], g: buf[o + 1], b: buf[o + 2], a: buf[o + 3] }
}

} // verus!
