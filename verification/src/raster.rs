//! The pixel store of both ends of a transfer.
//!
//! A [`Raster`] keeps its pixels in an `image::ImageBuffer` with four
//! byte-wide channels per pixel. Verus cannot look into that buffer, so the
//! calls into it are trusted: each one stands in a small function of this
//! module whose contract is believed, not proved. Everything above those
//! functions is verified against their contracts.

use vstd::prelude::*;

verus! {

/// One pixel: its four channel bytes in the order in which the raster stores them.
#[derive(Clone, Copy, Debug, PartialEq, Eq, Structural)]
pub struct Pixel(pub u8, pub u8, pub u8, pub u8);

impl Pixel {
    /// The channel with the given number, counted from 0.
    pub open spec fn channel(self, c: int) -> u8 {
        if c == 0 {
            self.0
        } else if c == 1 {
            self.1
        } else if c == 2 {
            self.2
        } else {
            self.3
        }
    }

    /// The same pixel with its first and third channel exchanged, as between
    /// red-green-blue and blue-green-red order.
    pub open spec fn swapped(self) -> Pixel {
        Pixel(self.2, self.1, self.0, self.3)
    }
}

/// A width × height grid of pixels, row-major, origin top-left.
///
/// The pixels lie in an `image::ImageBuffer<Rgba<u8>, Vec<u8>>`. The verifier
/// does not look into that buffer: of a raster it knows only what
/// `raster_raw`, `raster_width` and `raster_height` name, and of those only
/// what the trusted functions below say.
#[verifier::external_body]
pub struct Raster {
    buffer: image::ImageBuffer<image::Rgba<u8>, Vec<u8>>,
}

/// The bytes of the buffer behind a raster, as `ImageBuffer::as_raw` hands them out.
pub uninterp spec fn raster_raw(r: Raster) -> Seq<u8>;

/// What `ImageBuffer::width` returns for the buffer behind a raster.
pub uninterp spec fn raster_width(r: Raster) -> nat;

/// What `ImageBuffer::height` returns for the buffer behind a raster.
pub uninterp spec fn raster_height(r: Raster) -> nat;

/// Where the first channel of pixel `(x, y)` lies in the bytes of a raster of width `w`.
pub open spec fn pixel_offset(w: nat, x: int, y: int) -> int {
    (y * w + x) * 4
}

/// The pixel that four consecutive bytes from `at` on make up.
pub open spec fn pixel_from(bytes: Seq<u8>, at: int) -> Pixel {
    Pixel(bytes[at], bytes[at + 1], bytes[at + 2], bytes[at + 3])
}

/// `bytes` with the four channels of `px` written from `at` on.
pub open spec fn with_pixel(bytes: Seq<u8>, at: int, px: Pixel) -> Seq<u8> {
    bytes.update(at, px.0).update(at + 1, px.1).update(at + 2, px.2).update(at + 3, px.3)
}

/// The positions of a `w` × `h` raster.
pub open spec fn grid(w: nat, h: nat) -> Set<(int, int)> {
    Set::new(|p: (int, int)| 0 <= p.0 < w && 0 <= p.1 < h)
}

/// The pixels that a row-major buffer of width `w` and height `h` holds, by position.
pub open spec fn pixels_of(bytes: Seq<u8>, w: nat, h: nat) -> Map<(int, int), Pixel> {
    Map::new(
        |p: (int, int)| grid(w, h).contains(p),
        |p: (int, int)| pixel_from(bytes, pixel_offset(w, p.0, p.1)),
    )
}

impl Raster {
    /// The number of pixels in a row.
    pub open spec fn width(&self) -> nat {
        raster_width(*self)
    }

    /// The number of rows.
    pub open spec fn height(&self) -> nat {
        raster_height(*self)
    }

    /// The raw bytes: four per pixel, row after row.
    pub open spec fn raw(&self) -> Seq<u8> {
        raster_raw(*self)
    }

    /// The buffer holds exactly the pixels of the grid, nothing more, and
    /// the bytes of a row can be counted in `usize`.
    pub open spec fn well_formed(&self) -> bool {
        &&& self.raw().len() == 4 * self.width() * self.height()
        &&& 4 * self.width() <= usize::MAX
    }

    /// The pixels by position `(x, y)`.
    pub open spec fn pixels(&self) -> Map<(int, int), Pixel> {
        pixels_of(self.raw(), self.width(), self.height())
    }

    /// Whether `(x, y)` is a position of this raster.
    pub open spec fn has(&self, x: int, y: int) -> bool {
        0 <= x < self.width() && 0 <= y < self.height()
    }

    /// Calls `ImageBuffer::from_raw`. It multiplies 4 by the width and then
    /// by the height in `usize`, and hands back nothing if either product
    /// does not fit or if there are fewer bytes than the second. Otherwise
    /// it takes the bytes as the buffer of a `width` × `height` image and
    /// keeps them as they come, in their order and number.
    #[verifier::external_body]
    pub(crate) fn wrap(width: u32, height: u32, bytes: Vec<u8>) -> (r: Option<Raster>)
        ensures
            r is Some <==> (4 * width <= usize::MAX && 4 * width * height <= bytes.len()),
            r matches Some(raster) ==> raster_width(raster) == width
                && raster_height(raster) == height && raster_raw(raster) == bytes@,
    {
        match image::ImageBuffer::from_raw(width, height, bytes) {
            Some(buffer) => Some(Raster { buffer }),
            None => None,
        }
    }

    /// Calls `ImageBuffer::new`, which allocates a `width` × `height` image
    /// whose bytes are all zero. It multiplies 4 by the width and then by
    /// the height in `usize` and panics if either product does not fit, or
    /// if the second is more than a vector can hold. The precondition rules
    /// all of that out.
    #[verifier::external_body]
    pub(crate) fn zeroed(width: u32, height: u32) -> (r: Raster)
        requires
            4 * width <= usize::MAX,
            4 * width * height <= isize::MAX,
        ensures
            raster_width(r) == width,
            raster_height(r) == height,
            raster_raw(r) == Seq::new((4 * width * height) as nat, |i: int| 0u8),
    {
        Raster { buffer: image::ImageBuffer::new(width, height) }
    }

    /// Calls `ImageBuffer::width`.
    #[verifier::external_body]
    pub(crate) fn raw_width(&self) -> (w: u32)
        ensures
            w == raster_width(*self),
    {
        self.buffer.width()
    }

    /// Calls `ImageBuffer::height`.
    #[verifier::external_body]
    pub(crate) fn raw_height(&self) -> (h: u32)
        ensures
            h == raster_height(*self),
    {
        self.buffer.height()
    }

    /// Calls `ImageBuffer::as_raw`, which lends the buffer's bytes.
    #[verifier::external_body]
    pub(crate) fn raw_bytes(&self) -> (bytes: &Vec<u8>)
        ensures
            bytes@ == raster_raw(*self),
    {
        self.buffer.as_raw()
    }

    /// Calls `ImageBuffer::get_pixel`, which reads the four bytes from
    /// `(y * width + x) * 4` on and panics outside the grid.
    #[verifier::external_body]
    pub(crate) fn raw_get(&self, x: u32, y: u32) -> (px: Pixel)
        requires
            x < raster_width(*self),
            y < raster_height(*self),
            4 * raster_width(*self) * raster_height(*self) <= raster_raw(*self).len(),
        ensures
            px == pixel_from(
                raster_raw(*self),
                pixel_offset(raster_width(*self), x as int, y as int),
            ),
    {
        let p = self.buffer.get_pixel(x, y);
        Pixel(p.0[0], p.0[1], p.0[2], p.0[3])
    }

    /// Calls `ImageBuffer::put_pixel`, which writes the four bytes from
    /// `(y * width + x) * 4` on, leaves the rest of the buffer and the
    /// dimensions as they were, and panics outside the grid.
    #[verifier::external_body]
    pub(crate) fn raw_put(&mut self, x: u32, y: u32, px: Pixel)
        requires
            x < raster_width(*old(self)),
            y < raster_height(*old(self)),
            4 * raster_width(*old(self)) * raster_height(*old(self)) <= raster_raw(
                *old(self),
            ).len(),
        ensures
            raster_width(*final(self)) == raster_width(*old(self)),
            raster_height(*final(self)) == raster_height(*old(self)),
            raster_raw(*final(self)) == with_pixel(
                raster_raw(*old(self)),
                pixel_offset(raster_width(*old(self)), x as int, y as int),
                px,
            ),
    {
        self.buffer.put_pixel(x, y, image::Rgba([px.0, px.1, px.2, px.3]));
    }
}

/// Every position of the grid has its four bytes inside the buffer.
pub proof fn lemma_offset_in_bounds(w: nat, h: nat, x: int, y: int)
    by (nonlinear_arith)
    requires
        0 <= x < w,
        0 <= y < h,
    ensures
        0 <= pixel_offset(w, x, y),
        pixel_offset(w, x, y) + 4 <= 4 * w * h,
{
    assert((y + 1) * w <= h * w);
}

/// Two different positions of one row-major grid never share a byte.
proof fn lemma_offsets_apart(w: nat, x: int, y: int, x2: int, y2: int)
    by (nonlinear_arith)
    requires
        0 <= x < w,
        0 <= x2 < w,
        0 <= y,
        0 <= y2,
        x != x2 || y != y2,
    ensures
        pixel_offset(w, x, y) + 4 <= pixel_offset(w, x2, y2) || pixel_offset(w, x2, y2) + 4
            <= pixel_offset(w, x, y),
{
    if y < y2 {
        assert((y + 1) * w <= y2 * w);
    } else if y2 < y {
        assert((y2 + 1) * w <= y * w);
    }
}

/// Byte `i` of a `w` wide buffer belongs to the pixel in column `(i / 4) % w`
/// of row `(i / 4) / w`.
proof fn lemma_offset_of_byte(w: nat, h: nat, i: int)
    requires
        0 <= i < 4 * w * h,
    ensures
        w > 0,
        0 <= (i / 4) % (w as int) < w,
        0 <= (i / 4) / (w as int) < h,
        pixel_offset(w, (i / 4) % (w as int), (i / 4) / (w as int)) + i % 4 == i,
{
    assert(w > 0) by (nonlinear_arith)
        requires
            0 <= i < 4 * w * h,
    ;
    let k = i / 4;
    let wi = w as int;
    assert(0 <= k < w * h) by (nonlinear_arith)
        requires
            k == i / 4,
            0 <= i < 4 * w * h,
    ;
    vstd::arithmetic::div_mod::lemma_fundamental_div_mod(k, wi);
    vstd::arithmetic::div_mod::lemma_mod_bound(k, wi);
    assert(0 <= k / wi < h) by (nonlinear_arith)
        requires
            0 <= k < w * h,
            wi == w,
            wi > 0,
            k == wi * (k / wi) + k % wi,
            0 <= k % wi < wi,
    ;
    assert((k / wi) * w + k % wi == k) by (nonlinear_arith)
        requires
            k == wi * (k / wi) + k % wi,
            wi == w,
    ;
}

/// A well-formed buffer is known by its dimensions and its pixels.
pub proof fn lemma_pixels_fix_bytes(a: Seq<u8>, b: Seq<u8>, w: nat, h: nat)
    requires
        a.len() == 4 * w * h,
        b.len() == 4 * w * h,
        pixels_of(a, w, h) == pixels_of(b, w, h),
    ensures
        a == b,
{
    assert forall|i: int| 0 <= i < a.len() implies a[i] == b[i] by {
        lemma_offset_of_byte(w, h, i);
        let x = (i / 4) % (w as int);
        let y = (i / 4) / (w as int);
        let at = pixel_offset(w, x, y);
        assert(pixels_of(a, w, h).dom().contains((x, y)));
        assert(pixels_of(a, w, h)[(x, y)] == pixel_from(a, at));
        assert(pixels_of(b, w, h)[(x, y)] == pixel_from(b, at));
    }
    assert(a =~= b);
}

/// Writing one pixel into a buffer changes that pixel and no other.
proof fn lemma_with_pixel(bytes: Seq<u8>, w: nat, h: nat, x: int, y: int, px: Pixel)
    requires
        bytes.len() == 4 * w * h,
        0 <= x < w,
        0 <= y < h,
    ensures
        with_pixel(bytes, pixel_offset(w, x, y), px).len() == bytes.len(),
        pixels_of(with_pixel(bytes, pixel_offset(w, x, y), px), w, h) == pixels_of(
            bytes,
            w,
            h,
        ).insert((x, y), px),
{
    let at = pixel_offset(w, x, y);
    let after = with_pixel(bytes, at, px);
    lemma_offset_in_bounds(w, h, x, y);
    assert forall|q: (int, int)| 0 <= q.0 < w && 0 <= q.1 < h implies #[trigger] pixels_of(
        after,
        w,
        h,
    )[q] == pixels_of(bytes, w, h).insert((x, y), px)[q] by {
        lemma_offset_in_bounds(w, h, q.0, q.1);
        if q.0 != x || q.1 != y {
            lemma_offsets_apart(w, x, y, q.0, q.1);
        }
    }
    assert(pixels_of(after, w, h) =~= pixels_of(bytes, w, h).insert((x, y), px));
}

/// The number of bytes that the pixels of a `width` × `height` raster take.
pub fn byte_count(width: u32, height: u32) -> (n: u128)
    ensures
        n == 4 * width * height,
{
    assert(4 * width * height <= 4 * 0xffff_ffff * 0xffff_ffff) by (nonlinear_arith)
        requires
            width <= 0xffff_ffff,
            height <= 0xffff_ffff,
    ;
    assert(4 * width <= 4 * 0xffff_ffff);
    4 * (width as u128) * (height as u128)
}

impl Raster {
    /// A raster over the given bytes, four per pixel and row after row, if
    /// there are exactly as many as `width` × `height` pixels take. A width
    /// whose row of bytes the machine cannot even count is refused, also
    /// where the height is 0.
    pub fn from_bytes(width: u32, height: u32, bytes: Vec<u8>) -> (r: Option<Raster>)
        ensures
            r is Some <==> (4 * width <= usize::MAX && bytes.len() == 4 * width * height),
            r matches Some(raster) ==> raster.well_formed() && raster.width() == width
                && raster.height() == height && raster.raw() == bytes@,
    {
        if 4 * (width as u128) > usize::MAX as u128 {
            return None;
        }
        let need: u128 = byte_count(width, height);
        if bytes.len() as u128 != need {
            return None;
        }
        Raster::wrap(width, height, bytes)
    }

    /// A raster of the given size whose bytes are all zero, if that many
    /// bytes can be allocated at all. A width whose row of bytes the machine
    /// cannot even count is refused, also where the height is 0.
    pub fn blank(width: u32, height: u32) -> (r: Option<Raster>)
        ensures
            r is Some <==> (4 * width <= usize::MAX && 4 * width * height <= isize::MAX),
            r matches Some(raster) ==> raster.well_formed() && raster.width() == width
                && raster.height() == height && raster.raw() == Seq::new(
                (4 * width * height) as nat,
                |i: int| 0u8,
            ),
    {
        if 4 * (width as u128) > usize::MAX as u128 {
            return None;
        }
        let need: u128 = byte_count(width, height);
        if need > isize::MAX as u128 {
            return None;
        }
        Some(Raster::zeroed(width, height))
    }

    /// The width and the height, in pixels.
    pub fn dimensions(&self) -> (d: (u32, u32))
        ensures
            d.0 == self.width(),
            d.1 == self.height(),
    {
        (self.raw_width(), self.raw_height())
    }

    /// The raw bytes, as a display or an encoder takes them.
    pub fn as_bytes(&self) -> (bytes: &Vec<u8>)
        ensures
            bytes@ == self.raw(),
    {
        self.raw_bytes()
    }

    /// The pixel at `(x, y)`.
    pub fn pixel(&self, x: u32, y: u32) -> (px: Pixel)
        requires
            self.well_formed(),
            self.has(x as int, y as int),
        ensures
            px == self.pixels()[(x as int, y as int)],
    {
        self.raw_get(x, y)
    }

    /// Overwrites the pixel at `(x, y)`.
    pub fn put(&mut self, x: u32, y: u32, px: Pixel)
        requires
            old(self).well_formed(),
            old(self).has(x as int, y as int),
        ensures
            final(self).well_formed(),
            final(self).width() == old(self).width(),
            final(self).height() == old(self).height(),
            final(self).pixels() == old(self).pixels().insert((x as int, y as int), px),
    {
        proof {
            lemma_with_pixel(self.raw(), self.width(), self.height(), x as int, y as int, px);
        }
        self.raw_put(x, y, px);
    }
}

} // verus!
