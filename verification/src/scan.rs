//! The scan order of a stage: which positions it samples, and in which order.
//! Sender and receiver both go by this one description, so that the place of
//! a sample in the sequence tells both of them the same position.

use crate::raster::Pixel;
use crate::stage::SendStage;
use vstd::prelude::*;

verus! {

/// The positions `(x, y)`, `(x + stride, y)`, ... of one row, as long as they
/// lie left of `w`.
pub open spec fn row_positions(w: int, y: int, x: int, stride: int) -> Seq<(int, int)>
    decreases (if x < w { w - x } else { 0 }),
{
    if 0 <= x < w && stride > 0 {
        seq![(x, y)] + row_positions(w, y, x + stride, stride)
    } else {
        Seq::empty()
    }
}

/// The positions that `stage` samples in the rows `y`, `y + s`, ... above
/// `h`, where `s` is the side of its blocks: row after row, each from left to
/// right.
pub open spec fn rows_from(w: int, h: int, stage: SendStage, y: int) -> Seq<(int, int)>
    decreases (if y < h { h - y } else { 0 }),
{
    let s = stage.block_size() as int;
    if 0 <= y < h && s > 0 {
        row_positions(w, y, stage.row_start(y / s) as int, stage.row_stride(y / s) as int)
            + rows_from(w, h, stage, y + s)
    } else {
        Seq::empty()
    }
}

/// The positions that `stage` samples in a `w` × `h` raster, in the order in
/// which their samples are sent.
pub open spec fn stage_positions(w: nat, h: nat, stage: SendStage) -> Seq<(int, int)> {
    rows_from(w as int, h as int, stage, 0)
}

/// Whether `stage` samples the position `(x, y)` wherever a raster holds it:
/// the position is the corner of one of the stage's blocks, and no earlier
/// stage has sent it. The first stage sends every corner; a later stage
/// leaves out the corners in an even column of an even row, which are the
/// corners of the stage before.
pub open spec fn sampled(stage: SendStage, x: int, y: int) -> bool {
    let s = stage.block_size() as int;
    &&& s > 0
    &&& x % s == 0
    &&& y % s == 0
    &&& (stage.is_first() || (x / s) % 2 == 1 || (y / s) % 2 == 1)
}

/// The bytes that stand for the pixels at the given positions: four channel
/// bytes for each, in the order of the positions.
pub open spec fn samples(pixels: Map<(int, int), Pixel>, at: Seq<(int, int)>) -> Seq<u8> {
    Seq::new(4 * at.len(), |i: int| pixels[at[i / 4]].channel(i % 4))
}

/// Appending a position appends its pixel's four bytes.
pub proof fn lemma_samples_push(
    pixels: Map<(int, int), Pixel>,
    at: Seq<(int, int)>,
    p: (int, int),
)
    ensures
        samples(pixels, at.push(p)) == samples(pixels, at).push(pixels[p].0).push(
            pixels[p].1,
        ).push(pixels[p].2).push(pixels[p].3),
{
    let a = samples(pixels, at.push(p));
    let b = samples(pixels, at).push(pixels[p].0).push(pixels[p].1).push(pixels[p].2).push(
        pixels[p].3,
    );
    assert(a.len() == b.len());
    assert forall|i: int| 0 <= i < a.len() implies a[i] == b[i] by {
        if i / 4 < at.len() {
            assert(at.push(p)[i / 4] == at[i / 4]);
        } else {
            assert(i / 4 == at.len());
            assert(at.push(p)[i / 4] == p);
        }
    }
    assert(a =~= b);
}

/// The number of positions in a row: the distance from the first to the
/// right edge, divided by the stride and rounded up.
pub proof fn lemma_row_len(w: int, y: int, x: int, stride: int)
    requires
        0 <= x,
        stride > 0,
    ensures
        row_positions(w, y, x, stride).len() == (if x < w {
            (w - x + stride - 1) / stride
        } else {
            0
        }),
        row_positions(w, y, x, stride).len() <= (if x < w {
            w - x
        } else {
            0
        }),
    decreases (if x < w { w - x } else { 0 }),
{
    if x < w {
        lemma_row_len(w, y, x + stride, stride);
        let rest = w - x - 1;
        if x + stride < w {
            vstd::arithmetic::div_mod::lemma_div_plus_one(rest, stride);
            assert(w - x + stride - 1 == stride + rest);
            assert(w - (x + stride) + stride - 1 == rest);
        } else {
            assert(stride <= stride + rest < 2 * stride);
            assert((stride + rest) / stride == 1) by (nonlinear_arith)
                requires
                    stride > 0,
                    stride <= stride + rest < 2 * stride,
            ;
        }
    }
}

/// The number of samples that `stage` sends of a `width` × `height` raster.
/// It depends on nothing else, so both ends can tell it beforehand.
pub fn sample_count(width: u32, height: u32, stage: SendStage) -> (n: u64)
    ensures
        n == stage_positions(width as nat, height as nat, stage).len(),
        n <= width * height,
{
    if stage == SendStage::End {
        assert(width * height >= 0) by (nonlinear_arith);
        return 0;
    }
    let y_step: u64 = stage.y_step() as u64;
    let w: u64 = width as u64;
    let h: u64 = height as u64;
    let ghost total = stage_positions(width as nat, height as nat, stage);
    let mut n: u64 = 0;
    let mut rows: u64 = 0;
    let mut y: u64 = 0;
    assert(0 * w == 0);
    while y < h
        invariant
            stage != SendStage::End,
            y_step == stage.block_size(),
            w == width,
            h == height,
            y < h + y_step,
            rows <= y,
            rows <= h,
            n <= w * rows,
            n + rows_from(w as int, h as int, stage, y as int).len() == total.len(),
        decreases h + y_step - y,
    {
        let first: u64 = if stage == SendStage::init() || (y / y_step) % 2 != 0 {
            0
        } else {
            y_step
        };
        let stride: u64 = stage.x_step((y / y_step) as u32) as u64;
        proof {
            lemma_row_len(w as int, y as int, first as int, stride as int);
            assert(w * (rows + 1) == w * rows + w) by (nonlinear_arith);
            assert(w * (rows + 1) <= w * h) by (nonlinear_arith)
                requires
                    rows + 1 <= h,
            ;
            assert(w * h <= 0xffff_ffff * 0xffff_ffff) by (nonlinear_arith)
                requires
                    w <= 0xffff_ffff,
                    h <= 0xffff_ffff,
            ;
        }
        if first < w {
            n += (w - first + stride - 1) / stride;
        }
        rows += 1;
        y += y_step;
    }
    assert(w * rows <= w * h) by (nonlinear_arith)
        requires
            rows <= h,
    ;
    n
}

} // verus!
