//! What the scan order achieves: every position of a raster is sampled by
//! exactly one stage, exactly once, and a receiver that has taken all seven
//! stages holds the sender's image.

use crate::blocks::{
    corner, lemma_aligned, lemma_aligned_next, lemma_corner, lemma_corner_of_double,
    lemma_corner_unique, lemma_multiple,
};
use crate::paint::{covers, paint, sample};
use crate::raster::{grid, lemma_pixels_fix_bytes, pixels_of, Pixel};
use crate::scan::{row_positions, rows_from, sampled, samples, stage_positions};
use crate::stage::SendStage;
use vstd::prelude::*;

verus! {

/// Position number `k` of a row lies `k` strides right of the first.
proof fn lemma_row_index(w: int, y: int, x: int, stride: int, k: int)
    requires
        0 <= x,
        stride > 0,
        0 <= k < row_positions(w, y, x, stride).len(),
    ensures
        row_positions(w, y, x, stride)[k] == (x + k * stride, y),
        x + k * stride < w,
    decreases k,
{
    let row = row_positions(w, y, x, stride);
    let rest = row_positions(w, y, x + stride, stride);
    assert(row == seq![(x, y)] + rest);
    if k > 0 {
        assert(row[k] == rest[k - 1]);
        lemma_row_index(w, y, x + stride, stride, k - 1);
        assert(x + stride + (k - 1) * stride == x + k * stride) by (nonlinear_arith);
    } else {
        assert(row[0] == (x, y));
        assert(k * stride == 0) by (nonlinear_arith)
            requires
                k == 0,
        ;
    }
}

/// A row holds every position that lies a whole number of strides right of
/// its first one and left of the edge.
proof fn lemma_row_reaches(w: int, y: int, x: int, stride: int, k: int)
    requires
        0 <= x,
        stride > 0,
        0 <= k,
        x + k * stride < w,
    ensures
        k < row_positions(w, y, x, stride).len(),
    decreases k,
{
    assert(k * stride >= 0) by (nonlinear_arith)
        requires
            k >= 0,
            stride > 0,
    ;
    assert(row_positions(w, y, x, stride) == seq![(x, y)] + row_positions(
        w,
        y,
        x + stride,
        stride,
    ));
    if k > 0 {
        assert(x + stride + (k - 1) * stride == x + k * stride) by (nonlinear_arith);
        lemma_row_reaches(w, y, x + stride, stride, k - 1);
    }
}

/// Which positions the row of `stage` at height `y` holds.
proof fn lemma_row_contains(w: int, stage: SendStage, y: int, p: (int, int))
    requires
        stage != SendStage::End,
        y >= 0,
        y % (stage.block_size() as int) == 0,
    ensures
        row_positions(
            w,
            y,
            stage.row_start(y / (stage.block_size() as int)) as int,
            stage.row_stride(y / (stage.block_size() as int)) as int,
        ).contains(p) <==> (p.1 == y && 0 <= p.0 < w && sampled(stage, p.0, y)),
{
    let s = stage.block_size() as int;
    let x0 = stage.row_start(y / s) as int;
    let stride = stage.row_stride(y / s) as int;
    let row = row_positions(w, y, x0, stride);
    let plain = stage.is_first() || (y / s) % 2 != 0;
    if row.contains(p) {
        let k = choose|k: int| 0 <= k < row.len() && row[k] == p;
        lemma_row_index(w, y, x0, stride, k);
        if plain {
            lemma_multiple(k, s);
        } else {
            assert(s + k * (2 * s) == (2 * k + 1) * s) by (nonlinear_arith);
            lemma_multiple(2 * k + 1, s);
        }
        assert(k * stride >= 0) by (nonlinear_arith)
            requires
                k >= 0,
                stride > 0,
        ;
    }
    if p.1 == y && 0 <= p.0 < w && sampled(stage, p.0, y) {
        lemma_aligned(p.0, s);
        lemma_corner(p.0, s);
        let b = p.0 / s;
        if plain {
            lemma_row_reaches(w, y, x0, stride, b);
            lemma_row_index(w, y, x0, stride, b);
            assert(row[b] == p);
        } else {
            let j = b / 2;
            assert(b == 2 * j + 1);
            assert(s + j * (2 * s) == b * s) by (nonlinear_arith)
                requires
                    b == 2 * j + 1,
            ;
            lemma_row_reaches(w, y, x0, stride, j);
            lemma_row_index(w, y, x0, stride, j);
            assert(row[j] == p);
        }
    }
}

/// Which positions the rows of `stage` from height `y0` on hold.
proof fn lemma_rows_contain(w: int, h: int, stage: SendStage, y0: int, p: (int, int))
    requires
        stage != SendStage::End,
        y0 >= 0,
        y0 % (stage.block_size() as int) == 0,
    ensures
        rows_from(w, h, stage, y0).contains(p) <==> (y0 <= p.1 < h && 0 <= p.0 < w && sampled(
            stage,
            p.0,
            p.1,
        )),
    decreases (if y0 < h { h - y0 } else { 0 }),
{
    let s = stage.block_size() as int;
    if y0 < h {
        let row = row_positions(
            w,
            y0,
            stage.row_start(y0 / s) as int,
            stage.row_stride(y0 / s) as int,
        );
        let rest = rows_from(w, h, stage, y0 + s);
        lemma_aligned_next(y0, s);
        lemma_rows_contain(w, h, stage, y0 + s, p);
        lemma_row_contains(w, stage, y0, p);
        if p.1 > y0 && p.1 % s == 0 {
            lemma_aligned(p.1, s);
        }
        if row.contains(p) {
            let k = choose|k: int| 0 <= k < row.len() && row[k] == p;
            assert((row + rest)[k] == p);
        }
        if rest.contains(p) {
            let k = choose|k: int| 0 <= k < rest.len() && rest[k] == p;
            assert((row + rest)[row.len() + k] == p);
        }
        if (row + rest).contains(p) {
            let k = choose|k: int| 0 <= k < (row + rest).len() && (row + rest)[k] == p;
            if k < row.len() {
                assert(row[k] == p);
            } else {
                assert(rest[k - row.len()] == p);
            }
        }
    }
}

/// A stage samples exactly those positions of a raster that are corners of
/// its blocks and that no earlier stage has sent.
pub proof fn lemma_stage_samples(w: nat, h: nat, stage: SendStage, x: int, y: int)
    requires
        stage != SendStage::End,
    ensures
        stage_positions(w, h, stage).contains((x, y)) <==> (0 <= x < w && 0 <= y < h && sampled(
            stage,
            x,
            y,
        )),
{
    lemma_multiple(0, stage.block_size() as int);
    lemma_rows_contain(w as int, h as int, stage, 0, (x, y));
}

/// The number of the last of the positions `at` whose block of side `s`
/// reaches `q`, or -1 if none does.
pub open spec fn last_cover(at: Seq<(int, int)>, s: int, q: (int, int)) -> int
    decreases at.len(),
{
    if at.len() == 0 {
        -1
    } else if covers(at.last(), s, q) {
        at.len() - 1
    } else {
        last_cover(at.drop_last(), s, q)
    }
}

/// What `last_cover` finds is a block that reaches `q`; where it finds
/// nothing, no block does.
proof fn lemma_last_cover(at: Seq<(int, int)>, s: int, q: (int, int))
    ensures
        -1 <= last_cover(at, s, q) < at.len(),
        last_cover(at, s, q) >= 0 ==> covers(at[last_cover(at, s, q)], s, q),
        last_cover(at, s, q) == -1 ==> forall|k: int| 0 <= k < at.len() ==> !covers(at[k], s, q),
    decreases at.len(),
{
    if at.len() > 0 && !covers(at.last(), s, q) {
        lemma_last_cover(at.drop_last(), s, q);
        if last_cover(at, s, q) == -1 {
            assert forall|k: int| 0 <= k < at.len() implies !covers(at[k], s, q) by {
                if k < at.len() - 1 {
                    assert(at[k] == at.drop_last()[k]);
                }
            }
        }
    }
}

/// After painting, a pixel shows the sample of the last block that reaches
/// it, and what it showed before where no block reaches it.
pub proof fn lemma_paint_at(
    pixels: Map<(int, int), Pixel>,
    at: Seq<(int, int)>,
    s: int,
    data: Seq<u8>,
    q: (int, int),
)
    ensures
        paint(pixels, at, s, data).dom() == pixels.dom(),
        pixels.dom().contains(q) ==> paint(pixels, at, s, data)[q] == (if last_cover(at, s, q)
            >= 0 {
            sample(data, last_cover(at, s, q))
        } else {
            pixels[q]
        }),
    decreases at.len(),
{
    if at.len() > 0 {
        lemma_paint_at(pixels, at.drop_last(), s, data, q);
    }
    assert(paint(pixels, at, s, data).dom() =~= pixels.dom());
}

/// Sample number `k` of the samples taken at some positions is the pixel at
/// position number `k`.
pub proof fn lemma_sample_of_samples(source: Map<(int, int), Pixel>, at: Seq<(int, int)>, k: int)
    requires
        0 <= k < at.len(),
    ensures
        sample(samples(source, at), k) == source[at[k]],
{
    assert((4 * k) / 4 == k && (4 * k + 1) / 4 == k && (4 * k + 2) / 4 == k && (4 * k + 3) / 4
        == k);
}

/// The picture shows the source as coarsely as blocks of side `s` allow:
/// every pixel has the colour of the source at the corner of its block.
pub open spec fn blocky(
    source: Map<(int, int), Pixel>,
    picture: Map<(int, int), Pixel>,
    w: nat,
    h: nat,
    s: int,
) -> bool {
    forall|q: (int, int)|
        grid(w, h).contains(q) ==> #[trigger] picture[q] == source[(corner(q.0, s), corner(q.1, s))]
}

/// The receiver's picture after one step of a transfer: the sender samples
/// `source` at the positions of `stage`, and the receiver paints the samples
/// over `picture`.
pub open spec fn transfer_stage(
    source: Map<(int, int), Pixel>,
    picture: Map<(int, int), Pixel>,
    w: nat,
    h: nat,
    stage: SendStage,
) -> Map<(int, int), Pixel> {
    paint(
        picture,
        stage_positions(w, h, stage),
        stage.block_size() as int,
        samples(source, stage_positions(w, h, stage)),
    )
}

/// The receiver's picture after the steps from `stage` to the last.
pub open spec fn replay(
    source: Map<(int, int), Pixel>,
    picture: Map<(int, int), Pixel>,
    w: nat,
    h: nat,
    stage: SendStage,
) -> Map<(int, int), Pixel>
    decreases stage.remaining(),
{
    if stage == SendStage::End {
        picture
    } else {
        replay(source, transfer_stage(source, picture, w, h, stage), w, h, stage.successor())
    }
}

/// Each stage refines the picture to its own block size. The first stage
/// does so whatever the picture showed before; a later stage relies on the
/// stage before it having done its part.
pub proof fn lemma_stage_refines(
    source: Map<(int, int), Pixel>,
    picture: Map<(int, int), Pixel>,
    w: nat,
    h: nat,
    stage: SendStage,
)
    requires
        stage != SendStage::End,
        picture.dom() == grid(w, h),
        stage.is_first() || blocky(source, picture, w, h, 2 * (stage.block_size() as int)),
    ensures
        transfer_stage(source, picture, w, h, stage).dom() == grid(w, h),
        blocky(
            source,
            transfer_stage(source, picture, w, h, stage),
            w,
            h,
            stage.block_size() as int,
        ),
{
    let s = stage.block_size() as int;
    let at = stage_positions(w, h, stage);
    let data = samples(source, at);
    let after = transfer_stage(source, picture, w, h, stage);
    assert forall|q: (int, int)| grid(w, h).contains(q) implies #[trigger] after[q] == source[(
        corner(q.0, s),
        corner(q.1, s),
    )] by {
        lemma_paint_at(picture, at, s, data, q);
        lemma_last_cover(at, s, q);
        lemma_corner(q.0, s);
        lemma_corner(q.1, s);
        let c = (corner(q.0, s), corner(q.1, s));
        let k = last_cover(at, s, q);
        if k >= 0 {
            assert(at.contains(at[k]));
            lemma_stage_samples(w, h, stage, at[k].0, at[k].1);
            lemma_corner_unique(at[k].0, q.0, s);
            lemma_corner_unique(at[k].1, q.1, s);
            lemma_sample_of_samples(source, at, k);
        } else {
            lemma_stage_samples(w, h, stage, c.0, c.1);
            if at.contains(c) {
                let i = choose|i: int| 0 <= i < at.len() && at[i] == c;
                assert(covers(at[i], s, q));
            }
            lemma_corner_of_double(q.0, s);
            lemma_corner_of_double(q.1, s);
            assert(picture[q] == source[(corner(q.0, 2 * s), corner(q.1, 2 * s))]);
        }
    }
    lemma_paint_at(picture, at, s, data, (0, 0));
}

/// From any stage on, the remaining steps complete the picture, provided
/// that the stages before have done their part.
proof fn lemma_replay_from(
    source: Map<(int, int), Pixel>,
    picture: Map<(int, int), Pixel>,
    w: nat,
    h: nat,
    stage: SendStage,
)
    requires
        stage != SendStage::End,
        source.dom() == grid(w, h),
        picture.dom() == grid(w, h),
        stage.is_first() || blocky(source, picture, w, h, 2 * (stage.block_size() as int)),
    ensures
        replay(source, picture, w, h, stage) == source,
    decreases stage.remaining(),
{
    lemma_stage_refines(source, picture, w, h, stage);
    let after = transfer_stage(source, picture, w, h, stage);
    if stage == SendStage::S1x1 {
        assert forall|q: (int, int)| grid(w, h).contains(q) implies after[q] == source[q] by {
            assert(corner(q.0, 1) == q.0 && corner(q.1, 1) == q.1);
        }
        assert(after =~= source);
        assert(replay(source, after, w, h, SendStage::End) == after);
    } else {
        lemma_replay_from(source, after, w, h, stage.successor());
    }
}

/// A receiver that takes all seven stages in order ends up with the
/// sender's image pixel for pixel, whatever its picture showed at the start.
pub proof fn lemma_replay_restores_source(
    source: Map<(int, int), Pixel>,
    picture: Map<(int, int), Pixel>,
    w: nat,
    h: nat,
)
    requires
        source.dom() == grid(w, h),
        picture.dom() == grid(w, h),
    ensures
        replay(source, picture, w, h, SendStage::S64x64) == source,
{
    lemma_replay_from(source, picture, w, h, SendStage::S64x64);
}

/// The same for the bytes of two rasters of one size: if the second holds
/// what a full replay of the first gives, the two are equal byte for byte.
pub proof fn lemma_replay_restores_bytes(
    source: Seq<u8>,
    received: Seq<u8>,
    start: Map<(int, int), Pixel>,
    w: nat,
    h: nat,
)
    requires
        source.len() == 4 * w * h,
        received.len() == 4 * w * h,
        start.dom() == grid(w, h),
        pixels_of(received, w, h) == replay(
            pixels_of(source, w, h),
            start,
            w,
            h,
            SendStage::S64x64,
        ),
    ensures
        received == source,
{
    assert(pixels_of(source, w, h).dom() =~= grid(w, h));
    lemma_replay_restores_source(pixels_of(source, w, h), start, w, h);
    lemma_pixels_fix_bytes(source, received, w, h);
}

/// The stage that sends position `(x, y)`: the coarsest one that has a
/// block corner there.
pub open spec fn home_stage(x: int, y: int) -> SendStage {
    if x % 64 == 0 && y % 64 == 0 {
        SendStage::S64x64
    } else if x % 32 == 0 && y % 32 == 0 {
        SendStage::S32x32
    } else if x % 16 == 0 && y % 16 == 0 {
        SendStage::S16x16
    } else if x % 8 == 0 && y % 8 == 0 {
        SendStage::S8x8
    } else if x % 4 == 0 && y % 4 == 0 {
        SendStage::S4x4
    } else if x % 2 == 0 && y % 2 == 0 {
        SendStage::S2x2
    } else {
        SendStage::S1x1
    }
}

/// Every position of a raster is sent by one stage and by no other: there
/// are no gaps, and no stage sends again what another has sent.
pub proof fn lemma_sent_by_one_stage(w: nat, h: nat, x: int, y: int, stage: SendStage)
    requires
        0 <= x < w,
        0 <= y < h,
    ensures
        stage_positions(w, h, stage).contains((x, y)) <==> stage == home_stage(x, y),
{
    if stage == SendStage::End {
        assert(stage_positions(w, h, stage) =~= Seq::<(int, int)>::empty());
    } else {
        lemma_stage_samples(w, h, stage, x, y);
    }
}

/// A row holds no position twice.
proof fn lemma_row_no_duplicates(w: int, y: int, x: int, stride: int)
    requires
        0 <= x,
        stride > 0,
    ensures
        row_positions(w, y, x, stride).no_duplicates(),
{
    let row = row_positions(w, y, x, stride);
    assert forall|i: int, j: int| 0 <= i < row.len() && 0 <= j < row.len() && i != j implies row[i]
        != row[j] by {
        lemma_row_index(w, y, x, stride, i);
        lemma_row_index(w, y, x, stride, j);
        assert(i * stride != j * stride) by (nonlinear_arith)
            requires
                i != j,
                stride > 0,
        ;
    }
}

/// The rows of a stage from some height on hold no position twice.
proof fn lemma_rows_no_duplicates(w: int, h: int, stage: SendStage, y0: int)
    requires
        stage != SendStage::End,
        y0 >= 0,
        y0 % (stage.block_size() as int) == 0,
    ensures
        rows_from(w, h, stage, y0).no_duplicates(),
    decreases (if y0 < h { h - y0 } else { 0 }),
{
    let s = stage.block_size() as int;
    if y0 < h {
        let row = row_positions(
            w,
            y0,
            stage.row_start(y0 / s) as int,
            stage.row_stride(y0 / s) as int,
        );
        let rest = rows_from(w, h, stage, y0 + s);
        lemma_aligned_next(y0, s);
        lemma_rows_no_duplicates(w, h, stage, y0 + s);
        lemma_row_no_duplicates(
            w,
            y0,
            stage.row_start(y0 / s) as int,
            stage.row_stride(y0 / s) as int,
        );
        assert forall|i: int, j: int| 0 <= i < row.len() && 0 <= j < rest.len() implies row[i]
            != rest[j] by {
            lemma_row_index(
                w,
                y0,
                stage.row_start(y0 / s) as int,
                stage.row_stride(y0 / s) as int,
                i,
            );
            assert(rest.contains(rest[j]));
            lemma_rows_contain(w, h, stage, y0 + s, rest[j]);
        }
        vstd::seq_lib::lemma_no_dup_in_concat(row, rest);
    }
}

/// No stage sends a position twice.
pub proof fn lemma_sent_once(w: nat, h: nat, stage: SendStage)
    ensures
        stage_positions(w, h, stage).no_duplicates(),
{
    if stage != SendStage::End {
        lemma_multiple(0, stage.block_size() as int);
        lemma_rows_no_duplicates(w as int, h as int, stage, 0);
    }
}

/// The positions of row `y` of a raster of width `w`.
spec fn row_set(w: nat, y: int) -> Set<(int, int)> {
    Set::new(|p: (int, int)| 0 <= p.0 < w && p.1 == y)
}

/// A row has as many positions as the raster is wide.
proof fn lemma_row_set_len(w: nat, y: int)
    ensures
        row_set(w, y).finite(),
        row_set(w, y).len() == w,
    decreases w,
{
    broadcast use vstd::set::group_set_axioms;

    if w == 0 {
        assert(row_set(w, y) =~= Set::<(int, int)>::empty());
    } else {
        lemma_row_set_len((w - 1) as nat, y);
        assert(row_set(w, y) =~= row_set((w - 1) as nat, y).insert((w - 1, y)));
    }
}

/// A raster has width times height positions.
proof fn lemma_grid_len(w: nat, h: nat)
    ensures
        grid(w, h).finite(),
        grid(w, h).len() == w * h,
    decreases h,
{
    broadcast use vstd::set::group_set_axioms;

    if h == 0 {
        assert(grid(w, h) =~= Set::<(int, int)>::empty());
        assert(w * h == 0) by (nonlinear_arith)
            requires
                h == 0,
        ;
    } else {
        let above = grid(w, (h - 1) as nat);
        let last = row_set(w, h - 1);
        lemma_grid_len(w, (h - 1) as nat);
        lemma_row_set_len(w, h - 1);
        assert(grid(w, h) =~= above + last);
        assert(above.disjoint(last));
        vstd::set_lib::lemma_set_disjoint_lens(above, last);
        assert(w * (h - 1) + w == w * h) by (nonlinear_arith);
    }
}

/// The positions of a raster that `stage` sends.
spec fn share(w: nat, h: nat, stage: SendStage) -> Set<(int, int)> {
    Set::new(|p: (int, int)| grid(w, h).contains(p) && home_stage(p.0, p.1) == stage)
}

/// A stage sends as many samples as it has positions to send.
proof fn lemma_share_len(w: nat, h: nat, stage: SendStage)
    requires
        stage != SendStage::End,
    ensures
        share(w, h, stage).finite(),
        share(w, h, stage).len() == stage_positions(w, h, stage).len(),
{
    let at = stage_positions(w, h, stage);
    assert forall|p: (int, int)| share(w, h, stage).contains(p) <==> at.to_set().contains(p) by {
        lemma_stage_samples(w, h, stage, p.0, p.1);
        if grid(w, h).contains(p) {
            lemma_sent_by_one_stage(w, h, p.0, p.1, stage);
        }
    }
    assert(share(w, h, stage) =~= at.to_set());
    lemma_sent_once(w, h, stage);
    at.unique_seq_to_set();
    vstd::seq_lib::seq_to_set_is_finite(at);
}

/// The number of samples that the seven stages send of a raster, taken
/// together.
pub open spec fn total_samples(w: nat, h: nat) -> nat {
    stage_positions(w, h, SendStage::S64x64).len() + stage_positions(w, h, SendStage::S32x32).len()
        + stage_positions(w, h, SendStage::S16x16).len() + stage_positions(
        w,
        h,
        SendStage::S8x8,
    ).len() + stage_positions(w, h, SendStage::S4x4).len() + stage_positions(
        w,
        h,
        SendStage::S2x2,
    ).len() + stage_positions(w, h, SendStage::S1x1).len()
}

/// The seven stages together send as many samples as the raster has pixels.
pub proof fn lemma_samples_add_up(w: nat, h: nat)
    ensures
        total_samples(w, h) == w * h,
{
    broadcast use vstd::set::group_set_axioms;

    let s64 = share(w, h, SendStage::S64x64);
    let s32 = share(w, h, SendStage::S32x32);
    let s16 = share(w, h, SendStage::S16x16);
    let s8 = share(w, h, SendStage::S8x8);
    let s4 = share(w, h, SendStage::S4x4);
    let s2 = share(w, h, SendStage::S2x2);
    let s1 = share(w, h, SendStage::S1x1);
    lemma_share_len(w, h, SendStage::S64x64);
    lemma_share_len(w, h, SendStage::S32x32);
    lemma_share_len(w, h, SendStage::S16x16);
    lemma_share_len(w, h, SendStage::S8x8);
    lemma_share_len(w, h, SendStage::S4x4);
    lemma_share_len(w, h, SendStage::S2x2);
    lemma_share_len(w, h, SendStage::S1x1);
    let u32 = s64 + s32;
    let u16 = u32 + s16;
    let u8 = u16 + s8;
    let u4 = u8 + s4;
    let u2 = u4 + s2;
    let u1 = u2 + s1;
    assert(s64.disjoint(s32));
    vstd::set_lib::lemma_set_disjoint_lens(s64, s32);
    assert(u32.disjoint(s16));
    vstd::set_lib::lemma_set_disjoint_lens(u32, s16);
    assert(u16.disjoint(s8));
    vstd::set_lib::lemma_set_disjoint_lens(u16, s8);
    assert(u8.disjoint(s4));
    vstd::set_lib::lemma_set_disjoint_lens(u8, s4);
    assert(u4.disjoint(s2));
    vstd::set_lib::lemma_set_disjoint_lens(u4, s2);
    assert(u2.disjoint(s1));
    vstd::set_lib::lemma_set_disjoint_lens(u2, s1);
    assert(u1 =~= grid(w, h));
    lemma_grid_len(w, h);
}

} // verus!
