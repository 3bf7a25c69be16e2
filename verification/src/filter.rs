//! The window of the smoothing filter: a 5 × 5 neighbourhood around each
//! pixel, clamped at the edges of the raster, with one weight for each class
//! of distance from the centre. The weights are kept as whole numbers of
//! ten-millionths. The weighted mean itself is taken in floating point,
//! outside this library; `with_colours` puts its results together into the
//! smoothed picture.

use crate::raster::{
    grid, lemma_offset_in_bounds, pixel_from, pixel_offset, Pixel, Raster,
};
use vstd::prelude::*;

verus! {

/// The weights are numerators over this denominator.
pub const WEIGHT_SCALE: u32 = 10_000_000;

/// The classes of neighbours, by how far they lie from the centre.
#[derive(Clone, Copy, Debug, PartialEq, Eq, Structural)]
pub enum WeightClass {
    /// Two steps away in both directions.
    OuterCorner,
    /// Two steps away in one direction and one in the other.
    OuterEdge,
    /// Two steps away in one direction, none in the other.
    OuterMidEdge,
    /// One step away in both directions.
    InnerCorner,
    /// One step away in one direction, none in the other.
    InnerEdge,
    /// The centre itself.
    Own,
}

/// The distance of `d` from 0.
pub open spec fn magnitude(d: int) -> int {
    if d < 0 {
        -d
    } else {
        d
    }
}

impl WeightClass {
    /// The class of the neighbour at offset `(dx, dy)` of the window.
    pub open spec fn of(dx: int, dy: int) -> WeightClass {
        let ax = magnitude(dx);
        let ay = magnitude(dy);
        if ax == 2 && ay == 2 {
            WeightClass::OuterCorner
        } else if ax + ay == 3 {
            WeightClass::OuterEdge
        } else if ax + ay == 2 && ax != ay {
            WeightClass::OuterMidEdge
        } else if ax == 1 && ay == 1 {
            WeightClass::InnerCorner
        } else if ax + ay == 1 {
            WeightClass::InnerEdge
        } else {
            WeightClass::Own
        }
    }

    /// The weight of a neighbour of this class, in ten-millionths.
    pub open spec fn weight(self) -> nat {
        match self {
            WeightClass::OuterCorner => 396455,
            WeightClass::OuterEdge => 399107,
            WeightClass::OuterMidEdge => 399994,
            WeightClass::InnerCorner => 401776,
            WeightClass::InnerEdge => 402670,
            WeightClass::Own => 403566,
        }
    }

    /// The class of the neighbour at offset `(dx, dy)` of the window.
    pub fn classify(dx: i32, dy: i32) -> (class: WeightClass)
        requires
            -2 <= dx <= 2,
            -2 <= dy <= 2,
        ensures
            class == WeightClass::of(dx as int, dy as int),
    {
        let ax: i32 = if dx < 0 {
            -dx
        } else {
            dx
        };
        let ay: i32 = if dy < 0 {
            -dy
        } else {
            dy
        };
        if ax == 2 && ay == 2 {
            WeightClass::OuterCorner
        } else if ax + ay == 3 {
            WeightClass::OuterEdge
        } else if ax + ay == 2 && ax != ay {
            WeightClass::OuterMidEdge
        } else if ax == 1 && ay == 1 {
            WeightClass::InnerCorner
        } else if ax + ay == 1 {
            WeightClass::InnerEdge
        } else {
            WeightClass::Own
        }
    }

    /// The weight of a neighbour of this class, in ten-millionths.
    pub fn numerator(&self) -> (n: u32)
        ensures
            n == self.weight(),
    {
        match self {
            WeightClass::OuterCorner => 396455,
            WeightClass::OuterEdge => 399107,
            WeightClass::OuterMidEdge => 399994,
            WeightClass::InnerCorner => 401776,
            WeightClass::InnerEdge => 402670,
            WeightClass::Own => 403566,
        }
    }
}

/// The number of samples in a window.
pub const WINDOW: usize = 25;

/// The offsets of the window in the order in which the samples are taken:
/// class after class from the outside in, and within a class by `dx`, then
/// by `dy`. The centre comes last.
pub open spec fn kernel() -> Seq<(int, int)> {
    seq![
        (-2int, -2int),
        (-2int, 2int),
        (2int, -2int),
        (2int, 2int),
        (-2int, -1int),
        (-2int, 1int),
        (-1int, -2int),
        (-1int, 2int),
        (1int, -2int),
        (1int, 2int),
        (2int, -1int),
        (2int, 1int),
        (-2int, 0int),
        (0int, -2int),
        (0int, 2int),
        (2int, 0int),
        (-1int, -1int),
        (-1int, 1int),
        (1int, -1int),
        (1int, 1int),
        (-1int, 0int),
        (0int, -1int),
        (0int, 1int),
        (1int, 0int),
        (0int, 0int),
    ]
}

/// Offset number `k` of the window.
pub fn kernel_offset(k: usize) -> (d: (i32, i32))
    requires
        k < WINDOW,
    ensures
        (d.0 as int, d.1 as int) == kernel()[k as int],
        -2 <= d.0 <= 2,
        -2 <= d.1 <= 2,
{
    match k {
        0 => (-2, -2),
        1 => (-2, 2),
        2 => (2, -2),
        3 => (2, 2),
        4 => (-2, -1),
        5 => (-2, 1),
        6 => (-1, -2),
        7 => (-1, 2),
        8 => (1, -2),
        9 => (1, 2),
        10 => (2, -1),
        11 => (2, 1),
        12 => (-2, 0),
        13 => (0, -2),
        14 => (0, 2),
        15 => (2, 0),
        16 => (-1, -1),
        17 => (-1, 1),
        18 => (1, -1),
        19 => (1, 1),
        20 => (-1, 0),
        21 => (0, -1),
        22 => (0, 1),
        23 => (1, 0),
        _ => (0, 0),
    }
}

/// The coordinate `v` moved into a range of `len` coordinates from 0 on:
/// what lies before the range goes to its first coordinate, what lies
/// behind it to its last.
pub open spec fn clamped(v: int, len: int) -> int {
    if v < 0 {
        0
    } else if v >= len {
        len - 1
    } else {
        v
    }
}

/// The coordinate `c + d`, clamped to a range of `len` coordinates.
pub fn clamp_coord(c: u32, d: i32, len: u32) -> (r: u32)
    requires
        len > 0,
    ensures
        r == clamped(c + d, len as int),
        r < len,
{
    let v: i64 = c as i64 + d as i64;
    if v < 0 {
        0
    } else if v >= len as i64 {
        len - 1
    } else {
        v as u32
    }
}

/// The position of sample number `k` of the window around `(x, y)` in a
/// `w` × `h` raster.
pub open spec fn neighbor(w: nat, h: nat, x: int, y: int, k: int) -> (int, int) {
    (clamped(x + kernel()[k].0, w as int), clamped(y + kernel()[k].1, h as int))
}

/// The samples of the window around `(x, y)`, in the order of the kernel.
pub open spec fn neighborhood_of(
    pixels: Map<(int, int), Pixel>,
    w: nat,
    h: nat,
    x: int,
    y: int,
) -> Seq<Pixel> {
    Seq::new(WINDOW as nat, |k: int| pixels[neighbor(w, h, x, y, k)])
}

/// Reads the samples of the window around `(x, y)`. The raster is only
/// read, so the samples of different windows never see one another's
/// results.
pub fn neighborhood(raster: &Raster, x: u32, y: u32) -> (v: Vec<Pixel>)
    requires
        raster.well_formed(),
        raster.has(x as int, y as int),
    ensures
        v@ == neighborhood_of(raster.pixels(), raster.width(), raster.height(), x as int, y as int),
{
    let dims = raster.dimensions();
    let mut v: Vec<Pixel> = Vec::new();
    let mut k: usize = 0;
    while k < WINDOW
        invariant
            raster.well_formed(),
            raster.width() == dims.0,
            raster.height() == dims.1,
            dims.0 > 0,
            dims.1 > 0,
            k <= WINDOW,
            v@.len() == k,
            forall|i: int|
                0 <= i < k ==> v@[i] == raster.pixels()[neighbor(
                    raster.width(),
                    raster.height(),
                    x as int,
                    y as int,
                    i,
                )],
        decreases WINDOW - k,
    {
        let d = kernel_offset(k);
        let nx: u32 = clamp_coord(x, d.0, dims.0);
        let ny: u32 = clamp_coord(y, d.1, dims.1);
        let px = raster.pixel(nx, ny);
        v.push(px);
        k += 1;
    }
    assert(v@ =~= neighborhood_of(
        raster.pixels(),
        raster.width(),
        raster.height(),
        x as int,
        y as int,
    ));
    v
}

/// The pixels of a picture with their colours replaced: the first three
/// channels of the pixel at `(x, y)` come from entry `y * w + x` of
/// `colours`, the fourth stays as it is in the picture.
pub open spec fn recoloured(
    pixels: Map<(int, int), Pixel>,
    colours: Seq<Pixel>,
    w: nat,
) -> Map<(int, int), Pixel> {
    Map::new(
        |q: (int, int)| pixels.dom().contains(q),
        |q: (int, int)|
            Pixel(
                colours[q.1 * w + q.0].0,
                colours[q.1 * w + q.0].1,
                colours[q.1 * w + q.0].2,
                pixels[q].3,
            ),
    )
}

/// Puts a smoothed picture together: a raster of the size of `picture`
/// whose pixels have the colours computed for them, one entry of `colours`
/// for each pixel and row after row, and the alpha of `picture`. The fourth
/// channel of an entry is not looked at. Another number of entries than the
/// picture has pixels is refused.
pub fn with_colours(picture: &Raster, colours: &Vec<Pixel>) -> (r: Option<Raster>)
    requires
        picture.well_formed(),
    ensures
        r is Some <==> colours@.len() == picture.width() * picture.height(),
        r matches Some(out) ==> out.well_formed() && out.width() == picture.width()
            && out.height() == picture.height() && out.pixels() == recoloured(
            picture.pixels(),
            colours@,
            picture.width(),
        ),
{
    let dims = picture.dimensions();
    let before = picture.as_bytes();
    let ghost w = picture.width();
    let ghost h = picture.height();
    assert(4 * w * h == 4 * (w * h)) by (nonlinear_arith);
    if 4 * (colours.len() as u128) != before.len() as u128 {
        return None;
    }
    let mut bytes: Vec<u8> = Vec::new();
    let mut i: usize = 0;
    while i < colours.len()
        invariant
            before@ == picture.raw(),
            before@.len() == 4 * colours@.len(),
            before@.len() <= usize::MAX,
            i <= colours@.len(),
            bytes@.len() == 4 * i,
            forall|j: int|
                0 <= j < i ==> pixel_from(bytes@, 4 * j) == Pixel(
                    (#[trigger] colours@[j]).0,
                    colours@[j].1,
                    colours@[j].2,
                    before@[4 * j + 3],
                ),
        decreases colours@.len() - i,
    {
        let colour = colours[i];
        let alpha: u8 = before[4 * i + 3];
        let ghost so_far = bytes@;
        bytes.push(colour.0);
        bytes.push(colour.1);
        bytes.push(colour.2);
        bytes.push(alpha);
        proof {
            assert forall|j: int| 0 <= j < i + 1 implies pixel_from(bytes@, 4 * j) == Pixel(
                (#[trigger] colours@[j]).0,
                colours@[j].1,
                colours@[j].2,
                before@[4 * j + 3],
            ) by {
                if j < i {
                    assert(pixel_from(bytes@, 4 * j) == pixel_from(so_far, 4 * j));
                }
            }
        }
        i += 1;
    }
    let made = Raster::from_bytes(dims.0, dims.1, bytes);
    proof {
        let out = made->Some_0;
        assert forall|q: (int, int)| grid(w, h).contains(q) implies #[trigger] out.pixels()[q]
            == recoloured(picture.pixels(), colours@, w)[q] by {
            lemma_offset_in_bounds(w, h, q.0, q.1);
            let j = q.1 * w + q.0;
            assert(pixel_offset(w, q.0, q.1) == 4 * j);
            assert(0 <= j < colours@.len());
            let colour = colours@[j];
            assert(pixel_from(bytes@, 4 * j) == Pixel(
                colour.0,
                colour.1,
                colour.2,
                before@[4 * j + 3],
            ));
        }
        assert(out.pixels() =~= recoloured(picture.pixels(), colours@, w));
    }
    made
}

/// Every sample of a window is taken inside the raster.
pub proof fn lemma_neighbor_inside(w: nat, h: nat, x: int, y: int, k: int)
    requires
        w > 0,
        h > 0,
    ensures
        grid(w, h).contains(neighbor(w, h, x, y, k)),
{
}

/// In a raster of a single pixel every sample of the window is that pixel.
pub proof fn lemma_single_pixel_window(pixels: Map<(int, int), Pixel>, k: int)
    requires
        0 <= k < WINDOW,
    ensures
        neighborhood_of(pixels, 1, 1, 0, 0)[k] == pixels[(0, 0)],
{
}

/// In a raster of one colour every sample of every window has that colour.
pub proof fn lemma_uniform_window(
    pixels: Map<(int, int), Pixel>,
    w: nat,
    h: nat,
    x: int,
    y: int,
    colour: Pixel,
    k: int,
)
    requires
        w > 0,
        h > 0,
        forall|q: (int, int)| grid(w, h).contains(q) ==> pixels[q] == colour,
        0 <= k < WINDOW,
    ensures
        neighborhood_of(pixels, w, h, x, y)[k] == colour,
{
    lemma_neighbor_inside(w, h, x, y, k);
}

/// The sum of the weights of the first `n` offsets of the kernel.
pub open spec fn weight_of_first(n: nat) -> nat
    decreases n,
{
    if n == 0 {
        0
    } else {
        weight_of_first((n - 1) as nat) + WeightClass::of(
            kernel()[n - 1].0,
            kernel()[n - 1].1,
        ).weight()
    }
}

/// The weights of a window add up to one and two ten-millionths.
pub proof fn lemma_weights_total()
    ensures
        weight_of_first(WINDOW as nat) == WEIGHT_SCALE + 2,
{
    reveal_with_fuel(weight_of_first, 26);
}

/// Where the offset `(dx, dy)` stands in the kernel.
pub open spec fn kernel_index(dx: int, dy: int) -> int {
    if dx == -2 {
        if dy == -2 {
            0
        } else if dy == -1 {
            4
        } else if dy == 0 {
            12
        } else if dy == 1 {
            5
        } else {
            1
        }
    } else if dx == -1 {
        if dy == -2 {
            6
        } else if dy == -1 {
            16
        } else if dy == 0 {
            20
        } else if dy == 1 {
            17
        } else {
            7
        }
    } else if dx == 0 {
        if dy == -2 {
            13
        } else if dy == -1 {
            21
        } else if dy == 0 {
            24
        } else if dy == 1 {
            22
        } else {
            14
        }
    } else if dx == 1 {
        if dy == -2 {
            8
        } else if dy == -1 {
            18
        } else if dy == 0 {
            23
        } else if dy == 1 {
            19
        } else {
            9
        }
    } else {
        if dy == -2 {
            2
        } else if dy == -1 {
            10
        } else if dy == 0 {
            15
        } else if dy == 1 {
            11
        } else {
            3
        }
    }
}

/// The kernel holds every offset of the 5 × 5 window, each of them once.
pub proof fn lemma_kernel_is_window()
    ensures
        kernel().len() == WINDOW,
        forall|k: int|
            0 <= k < WINDOW ==> -2 <= (#[trigger] kernel()[k]).0 <= 2 && -2 <= kernel()[k].1 <= 2
                && kernel_index(kernel()[k].0, kernel()[k].1) == k,
        forall|dx: int, dy: int|
            -2 <= dx <= 2 && -2 <= dy <= 2 ==> 0 <= #[trigger] kernel_index(dx, dy) < WINDOW
                && kernel()[kernel_index(dx, dy)] == (dx, dy),
{
}

/// The weighted sum of channel `c` over the first `n` samples of a window,
/// in ten-millionths.
pub open spec fn weighted_sum(window: Seq<Pixel>, c: int, n: nat) -> int
    decreases n,
{
    if n == 0 {
        0
    } else {
        weighted_sum(window, c, (n - 1) as nat) + WeightClass::of(
            kernel()[n - 1].0,
            kernel()[n - 1].1,
        ).weight() * window[n - 1].channel(c)
    }
}

/// The weighted sum of equal samples is their value times the sum of the
/// weights.
proof fn lemma_weighted_sum_of_equal(window: Seq<Pixel>, c: int, value: u8, n: nat)
    requires
        n <= WINDOW,
        forall|k: int| 0 <= k < WINDOW ==> (#[trigger] window[k]).channel(c) == value,
    ensures
        weighted_sum(window, c, n) == weight_of_first(n) * value,
    decreases n,
{
    if n > 0 {
        lemma_weighted_sum_of_equal(window, c, value, (n - 1) as nat);
        let w = WeightClass::of(kernel()[n - 1].0, kernel()[n - 1].1).weight();
        assert(window[n - 1].channel(c) == value);
        assert(weight_of_first((n - 1) as nat) * value + w * value == (weight_of_first(
            (n - 1) as nat,
        ) + w) * value) by (nonlinear_arith);
    } else {
        assert(0 * value == 0);
    }
}

/// In exact arithmetic the weighted mean of a window of equal samples,
/// rounded down to a whole number, is the value of the samples: the weights
/// exceed one by too little to reach the next number.
pub proof fn lemma_mean_of_equal_samples(window: Seq<Pixel>, c: int, value: u8)
    requires
        forall|k: int| 0 <= k < WINDOW ==> (#[trigger] window[k]).channel(c) == value,
    ensures
        weighted_sum(window, c, WINDOW as nat) / (WEIGHT_SCALE as int) == value,
{
    lemma_weighted_sum_of_equal(window, c, value, WINDOW as nat);
    lemma_weights_total();
}

} // verus!
