//! What the receiver does with a sample: it fills a square block with it.

use crate::raster::{pixel_from, Pixel, Raster};
use vstd::prelude::*;

verus! {

/// Whether `q` lies in the square of side `s` whose top-left corner is `corner`.
pub open spec fn covers(corner: (int, int), s: int, q: (int, int)) -> bool {
    corner.0 <= q.0 < corner.0 + s && corner.1 <= q.1 < corner.1 + s
}

/// The pixels after the square at `corner` was filled with `px`. What of the
/// square lies outside the raster is cut off.
pub open spec fn paint_block(
    pixels: Map<(int, int), Pixel>,
    corner: (int, int),
    s: int,
    px: Pixel,
) -> Map<(int, int), Pixel> {
    Map::new(
        |q: (int, int)| pixels.dom().contains(q),
        |q: (int, int)|
            if covers(corner, s, q) {
                px
            } else {
                pixels[q]
            },
    )
}

/// Sample number `k` of a sample sequence.
pub open spec fn sample(data: Seq<u8>, k: int) -> Pixel {
    pixel_from(data, 4 * k)
}

/// The pixels after one block was painted for each of the positions `at`, in
/// their order, block `k` with sample `k` of `data`. A later block overwrites
/// an earlier one where they overlap.
pub open spec fn paint(
    pixels: Map<(int, int), Pixel>,
    at: Seq<(int, int)>,
    s: int,
    data: Seq<u8>,
) -> Map<(int, int), Pixel>
    decreases at.len(),
{
    if at.len() == 0 {
        pixels
    } else {
        paint_block(
            paint(pixels, at.drop_last(), s, data),
            at.last(),
            s,
            sample(data, at.len() - 1),
        )
    }
}

/// The pixels while the square at `corner` is being filled row by row: the
/// rows above `y` are done, and of row `y` what lies left of `x`.
spec fn paint_partial(
    pixels: Map<(int, int), Pixel>,
    corner: (int, int),
    s: int,
    px: Pixel,
    x: int,
    y: int,
) -> Map<(int, int), Pixel> {
    Map::new(
        |q: (int, int)| pixels.dom().contains(q),
        |q: (int, int)|
            if covers(corner, s, q) && (q.1 < y || (q.1 == y && q.0 < x)) {
                px
            } else {
                pixels[q]
            },
    )
}

/// Fills the square of side `side` at `(x, y)` with `px`, as far as it lies
/// inside the raster.
pub fn paint_square(raster: &mut Raster, x: u32, y: u32, side: u32, px: Pixel)
    requires
        old(raster).well_formed(),
    ensures
        final(raster).well_formed(),
        final(raster).width() == old(raster).width(),
        final(raster).height() == old(raster).height(),
        final(raster).pixels() == paint_block(
            old(raster).pixels(),
            (x as int, y as int),
            side as int,
            px,
        ),
{
    let dims = raster.dimensions();
    let ghost before = raster.pixels();
    let ghost corner = (x as int, y as int);
    if x >= dims.0 || y >= dims.1 {
        assert(raster.pixels() =~= paint_block(before, corner, side as int, px));
        return ;
    }
    let x_end: u64 = if x as u64 + side as u64 <= dims.0 as u64 {
        x as u64 + side as u64
    } else {
        dims.0 as u64
    };
    let y_end: u64 = if y as u64 + side as u64 <= dims.1 as u64 {
        y as u64 + side as u64
    } else {
        dims.1 as u64
    };
    let mut yy: u64 = y as u64;
    assert(raster.pixels() =~= paint_partial(before, corner, side as int, px, x as int, y as int));
    while yy < y_end
        invariant
            raster.well_formed(),
            raster.width() == old(raster).width(),
            raster.height() == old(raster).height(),
            before == old(raster).pixels(),
            corner == (x as int, y as int),
            x <= x_end <= raster.width(),
            x_end <= u32::MAX,
            y_end <= u32::MAX,
            x_end <= x + side,
            y_end <= y + side,
            x_end == x + side || x_end == raster.width(),
            y <= yy <= y_end <= raster.height(),
            y_end == y + side || y_end == raster.height(),
            raster.pixels() == paint_partial(before, corner, side as int, px, x as int, yy as int),
        decreases y_end - yy,
    {
        let mut xx: u64 = x as u64;
        while xx < x_end
            invariant
                raster.well_formed(),
                raster.width() == old(raster).width(),
                raster.height() == old(raster).height(),
                before == old(raster).pixels(),
                corner == (x as int, y as int),
                x <= xx <= x_end <= raster.width(),
                x_end <= u32::MAX,
                y_end <= u32::MAX,
                x_end <= x + side,
                y <= yy < y_end <= raster.height(),
                y_end <= y + side,
                raster.pixels() == paint_partial(
                    before,
                    corner,
                    side as int,
                    px,
                    xx as int,
                    yy as int,
                ),
            decreases x_end - xx,
        {
            raster.put(xx as u32, yy as u32, px);
            assert(raster.pixels() =~= paint_partial(
                before,
                corner,
                side as int,
                px,
                xx + 1,
                yy as int,
            ));
            xx += 1;
        }
        assert(paint_partial(before, corner, side as int, px, xx as int, yy as int)
            =~= paint_partial(before, corner, side as int, px, x as int, yy + 1));
        yy += 1;
    }
    assert(paint_partial(before, corner, side as int, px, x as int, yy as int) =~= paint_block(
        before,
        corner,
        side as int,
        px,
    ));
}

} // verus!
