//! The two ends of a transfer and the driver that keeps them in step.

use crate::coverage::{blocky, lemma_stage_refines, transfer_stage};
use crate::paint::{paint, paint_square, sample};
use crate::raster::{grid, lemma_pixels_fix_bytes, pixels_of, Pixel, Raster};
use crate::scan::{
    lemma_samples_push, row_positions, rows_from, sample_count, samples, stage_positions,
};
use crate::stage::{SendStage, TransferError};
use vstd::prelude::*;

verus! {

/// The given pixels, each with its first and third channel exchanged.
pub open spec fn swapped(pixels: Map<(int, int), Pixel>) -> Map<(int, int), Pixel> {
    Map::new(|q: (int, int)| pixels.dom().contains(q), |q: (int, int)| pixels[q].swapped())
}

/// The pixels while the channels are being exchanged row by row: the rows
/// above `y` are done, and of row `y` what lies left of `x`.
spec fn swapped_partial(pixels: Map<(int, int), Pixel>, x: int, y: int) -> Map<
    (int, int),
    Pixel,
> {
    Map::new(
        |q: (int, int)| pixels.dom().contains(q),
        |q: (int, int)|
            if q.1 < y || (q.1 == y && q.0 < x) {
                pixels[q].swapped()
            } else {
                pixels[q]
            },
    )
}

/// Exchanges the first and the third channel of every pixel: a decoder
/// delivers red first, the display that shows the rasters takes blue first.
pub fn swap_red_blue(raster: &mut Raster)
    requires
        old(raster).well_formed(),
    ensures
        final(raster).well_formed(),
        final(raster).width() == old(raster).width(),
        final(raster).height() == old(raster).height(),
        final(raster).pixels() == swapped(old(raster).pixels()),
{
    let dims = raster.dimensions();
    let ghost before = raster.pixels();
    let mut y: u32 = 0;
    assert(raster.pixels() =~= swapped_partial(before, 0, 0));
    while y < dims.1
        invariant
            raster.well_formed(),
            raster.width() == dims.0,
            raster.height() == dims.1,
            before == old(raster).pixels(),
            y <= dims.1,
            raster.pixels() == swapped_partial(before, 0, y as int),
        decreases dims.1 - y,
    {
        let mut x: u32 = 0;
        while x < dims.0
            invariant
                raster.well_formed(),
                raster.width() == dims.0,
                raster.height() == dims.1,
                before == old(raster).pixels(),
                y < dims.1,
                x <= dims.0,
                raster.pixels() == swapped_partial(before, x as int, y as int),
            decreases dims.0 - x,
        {
            let px = raster.pixel(x, y);
            raster.put(x, y, Pixel(px.2, px.1, px.0, px.3));
            assert(raster.pixels() =~= swapped_partial(before, x + 1, y as int));
            x += 1;
        }
        assert(swapped_partial(before, x as int, y as int) =~= swapped_partial(before, 0, y + 1));
        y += 1;
    }
    assert(swapped_partial(before, 0, y as int) =~= swapped(before));
}

/// The sending end: the full image, and the stage that it sends next.
pub struct ServerData {
    sending_image: Raster,
    send_stage: SendStage,
}

impl ServerData {
    /// The image that is being sent.
    pub closed spec fn image(&self) -> Raster {
        self.sending_image
    }

    /// The stage that the next call of `send` sends.
    pub closed spec fn stage(&self) -> SendStage {
        self.send_stage
    }

    /// The image has pixels, and its buffer holds exactly those.
    pub open spec fn wf(&self) -> bool {
        &&& self.image().well_formed()
        &&& self.image().width() > 0
        &&& self.image().height() > 0
    }

    /// A sender for the image that a decoder delivered as `bytes`: four
    /// channel bytes per pixel, red first, row after row. The sender keeps it
    /// with blue first, which is the order in which it sends. It starts at
    /// the first stage. A raster without pixels is refused, and so are bytes
    /// that do not fill the dimensions exactly.
    pub fn new(width: u32, height: u32, bytes: Vec<u8>) -> (r: Result<ServerData, TransferError>)
        ensures
            r is Ok <==> width > 0 && height > 0 && bytes.len() == 4 * width * height,
            r matches Err(e) ==> e == TransferError::InvalidDimensions,
            r matches Ok(server) ==> server.wf() && server.image().width() == width
                && server.image().height() == height && server.image().pixels() == swapped(
                pixels_of(bytes@, width as nat, height as nat),
            ) && server.stage() == SendStage::S64x64,
    {
        if width == 0 || height == 0 {
            return Err(TransferError::InvalidDimensions);
        }
        assert(4 * width <= 4 * width * height) by (nonlinear_arith)
            requires
                height >= 1,
        ;
        match Raster::from_bytes(width, height, bytes) {
            Some(image) => {
                let mut sending_image = image;
                swap_red_blue(&mut sending_image);
                Ok(ServerData { sending_image, send_stage: SendStage::init() })
            },
            None => Err(TransferError::InvalidDimensions),
        }
    }

    /// The stage that the next call of `send` sends.
    pub fn send_stage(&self) -> (stage: SendStage)
        ensures
            stage == self.stage(),
    {
        self.send_stage
    }

    /// The image that is being sent.
    pub fn sending_image(&self) -> (image: &Raster)
        ensures
            *image == self.image(),
    {
        &self.sending_image
    }

    /// The positions that the current stage samples, in the order in which
    /// their samples are sent.
    pub open spec fn positions(&self) -> Seq<(int, int)> {
        stage_positions(self.image().width(), self.image().height(), self.stage())
    }

    /// Produces the samples of the current stage and moves on to the next:
    /// the pixels at the stage's positions, four bytes each, in scan order.
    /// After the last stage there is nothing left to send; the call is then
    /// refused and changes nothing.
    pub fn send(&mut self) -> (r: Result<Vec<u8>, TransferError>)
        requires
            old(self).wf(),
        ensures
            final(self).wf(),
            final(self).image() == old(self).image(),
            final(self).stage() == old(self).stage().successor(),
            r is Ok <==> old(self).stage() != SendStage::End,
            r matches Ok(v) ==> v@ == samples(old(self).image().pixels(), old(self).positions()),
            r matches Ok(v) ==> v@.len() == 4 * old(self).positions().len(),
            r matches Err(e) ==> e == TransferError::StageExhausted,
    {
        if self.send_stage == SendStage::End {
            return Err(TransferError::StageExhausted);
        }
        let stage = self.send_stage;
        let y_step: u64 = stage.y_step() as u64;
        let start_x: u64 = if stage == SendStage::init() {
            0
        } else {
            y_step
        };
        let dims = self.sending_image.dimensions();
        let width: u64 = dims.0 as u64;
        let height: u64 = dims.1 as u64;
        let ghost pixels = self.sending_image.pixels();
        let ghost total = stage_positions(width as nat, height as nat, stage);
        let ghost mut done: Seq<(int, int)> = Seq::empty();
        let mut v: Vec<u8> = Vec::new();
        let mut x: u64 = start_x;
        let mut y: u64 = 0;
        assert(done + rows_from(width as int, height as int, stage, 0) =~= total);
        while y < height
            invariant
                self.sending_image.well_formed(),
                self.sending_image.width() == width,
                self.sending_image.height() == height,
                self.sending_image.pixels() == pixels,
                stage != SendStage::End,
                y_step == stage.block_size(),
                start_x == (if stage.is_first() {
                    0
                } else {
                    y_step
                }),
                width <= u32::MAX,
                height <= u32::MAX,
                y < height + y_step,
                x == stage.row_start((y / y_step) as int),
                done + rows_from(width as int, height as int, stage, y as int) == total,
                v@ == samples(pixels, done),
            decreases height + y_step - y,
        {
            let x_step: u64 = stage.x_step((y / y_step) as u32) as u64;
            proof {
                assert(done + row_positions(width as int, y as int, x as int, x_step as int)
                    + rows_from(width as int, height as int, stage, y + y_step) =~= done
                    + rows_from(width as int, height as int, stage, y as int));
            }
            while x < width
                invariant
                    self.sending_image.well_formed(),
                    self.sending_image.width() == width,
                    self.sending_image.height() == height,
                    self.sending_image.pixels() == pixels,
                    width <= u32::MAX,
                    y < height <= u32::MAX,
                    1 <= x_step <= 128,
                    x < width + x_step,
                    done + row_positions(width as int, y as int, x as int, x_step as int)
                        + rows_from(width as int, height as int, stage, y + y_step) == total,
                    v@ == samples(pixels, done),
                decreases width + x_step - x,
            {
                let px = self.sending_image.pixel(x as u32, y as u32);
                proof {
                    lemma_samples_push(pixels, done, (x as int, y as int));
                    assert(done.push((x as int, y as int)) + row_positions(
                        width as int,
                        y as int,
                        x + x_step,
                        x_step as int,
                    ) + rows_from(width as int, height as int, stage, y + y_step) =~= done
                        + row_positions(width as int, y as int, x as int, x_step as int)
                        + rows_from(width as int, height as int, stage, y + y_step));
                    done = done.push((x as int, y as int));
                }
                v.push(px.0);
                v.push(px.1);
                v.push(px.2);
                v.push(px.3);
                x += x_step;
            }
            proof {
                vstd::arithmetic::div_mod::lemma_div_plus_one(y as int, y_step as int);
                assert(done + rows_from(width as int, height as int, stage, y + y_step) =~= done
                    + row_positions(width as int, y as int, x as int, x_step as int)
                    + rows_from(width as int, height as int, stage, y + y_step));
            }
            if x_step != y_step {
                x = 0;
            } else {
                x = start_x;
            }
            y += y_step;
        }
        assert(done =~= total);
        let _ = self.send_stage.next();
        Ok(v)
    }

    /// Goes back to the first stage.
    pub fn clear(&mut self)
        ensures
            final(self).image() == old(self).image(),
            final(self).stage() == SendStage::S64x64,
    {
        self.send_stage = SendStage::init();
    }
}

/// The receiving end: what it has put together of the image so far, the
/// stage that it expects next, and whether its picture is shown smoothed.
pub struct ClientData {
    receiving_image: Raster,
    send_stage: SendStage,
    blur: bool,
}

impl ClientData {
    /// The image as far as it has been received.
    pub closed spec fn image(&self) -> Raster {
        self.receiving_image
    }

    /// The stage whose samples the next call of `receive` takes.
    pub closed spec fn stage(&self) -> SendStage {
        self.send_stage
    }

    /// Whether the picture is to be shown smoothed while it is incomplete.
    pub closed spec fn blur(&self) -> bool {
        self.blur
    }

    /// The image has pixels, its buffer holds exactly those, and a buffer of
    /// its size can be allocated anew.
    pub open spec fn wf(&self) -> bool {
        &&& self.image().well_formed()
        &&& self.image().width() > 0
        &&& self.image().height() > 0
        &&& 4 * self.image().width() * self.image().height() <= isize::MAX
    }

    /// The positions for which the current stage takes samples, in the
    /// order in which it takes them.
    pub open spec fn positions(&self) -> Seq<(int, int)> {
        stage_positions(self.image().width(), self.image().height(), self.stage())
    }

    /// A receiver for an image of the given size: all of its bytes are zero,
    /// it expects the first stage, and it does not smooth. A raster without
    /// pixels is refused, and so is one too large to allocate.
    pub fn new(width: u32, height: u32) -> (r: Result<ClientData, TransferError>)
        ensures
            r is Ok <==> width > 0 && height > 0 && 4 * width * height <= isize::MAX,
            r is Err ==> r->Err_0 == TransferError::InvalidDimensions,
            r matches Ok(client) ==> client.wf() && client.image().width() == width
                && client.image().height() == height && client.image().raw() == Seq::new(
                (4 * width * height) as nat,
                |i: int| 0u8,
            ) && client.stage() == SendStage::S64x64 && !client.blur(),
    {
        if width == 0 || height == 0 {
            return Err(TransferError::InvalidDimensions);
        }
        assert(4 * width <= 4 * width * height) by (nonlinear_arith)
            requires
                height >= 1,
        ;
        match Raster::blank(width, height) {
            Some(receiving_image) => Ok(
                ClientData { receiving_image, send_stage: SendStage::init(), blur: false },
            ),
            None => Err(TransferError::InvalidDimensions),
        }
    }

    /// The stage whose samples the next call of `receive` takes.
    pub fn send_stage(&self) -> (stage: SendStage)
        ensures
            stage == self.stage(),
    {
        self.send_stage
    }

    /// The image as far as it has been received.
    pub fn receiving_image(&self) -> (image: &Raster)
        ensures
            *image == self.image(),
    {
        &self.receiving_image
    }

    /// Takes the samples of the current stage, paints one block for each at
    /// the position that the scan order gives it, and moves on to the next
    /// stage. After the last stage the call is refused. It is refused too if
    /// the number of bytes is not the one that the stage takes for an image
    /// of this size: sender and receiver are then out of step, and painting
    /// would spoil the picture. A refused call changes nothing.
    pub fn receive(&mut self, data: &[u8]) -> (r: Result<(), TransferError>)
        requires
            old(self).wf(),
        ensures
            final(self).wf(),
            final(self).image().width() == old(self).image().width(),
            final(self).image().height() == old(self).image().height(),
            final(self).blur() == old(self).blur(),
            r is Ok <==> old(self).stage() != SendStage::End && data@.len() == 4 * old(
                self,
            ).positions().len(),
            r is Ok ==> final(self).stage() == old(self).stage().successor(),
            r is Ok ==> final(self).image().pixels() == paint(
                old(self).image().pixels(),
                old(self).positions(),
                old(self).stage().block_size() as int,
                data@,
            ),
            r is Err ==> final(self).stage() == old(self).stage(),
            r is Err ==> final(self).image() == old(self).image(),
            r matches Err(e) ==> e == (if old(self).stage() == SendStage::End {
                TransferError::StageExhausted
            } else {
                TransferError::SampleCountMismatch
            }),
    {
        if self.send_stage == SendStage::End {
            return Err(TransferError::StageExhausted);
        }
        let stage = self.send_stage;
        let dims = self.receiving_image.dimensions();
        let expected: u64 = sample_count(dims.0, dims.1, stage);
        if data.len() as u128 != 4 * (expected as u128) {
            return Err(TransferError::SampleCountMismatch);
        }
        let side: u32 = stage.y_step();
        let y_step: u64 = side as u64;
        let start_x: u64 = if stage == SendStage::init() {
            0
        } else {
            y_step
        };
        let width: u64 = dims.0 as u64;
        let height: u64 = dims.1 as u64;
        let ghost before = self.receiving_image.pixels();
        let ghost total = stage_positions(width as nat, height as nat, stage);
        let ghost mut done: Seq<(int, int)> = Seq::empty();
        let mut k: usize = 0;
        let mut x: u64 = start_x;
        let mut y: u64 = 0;
        assert(done + rows_from(width as int, height as int, stage, 0) =~= total);
        while y < height
            invariant
                self.receiving_image.well_formed(),
                self.receiving_image.width() == width,
                self.receiving_image.height() == height,
                self.send_stage == stage,
                self.blur == old(self).blur,
                stage != SendStage::End,
                side == y_step,
                y_step == stage.block_size(),
                start_x == (if stage.is_first() {
                    0
                } else {
                    y_step
                }),
                0 < width <= u32::MAX,
                0 < height <= u32::MAX,
                4 * width * height <= isize::MAX,
                y < height + y_step,
                x == stage.row_start((y / y_step) as int),
                done + rows_from(width as int, height as int, stage, y as int) == total,
                k == done.len(),
                data@.len() == 4 * total.len(),
                data@.len() <= usize::MAX,
                self.receiving_image.pixels() == paint(before, done, y_step as int, data@),
            decreases height + y_step - y,
        {
            let x_step: u64 = stage.x_step((y / y_step) as u32) as u64;
            proof {
                assert(done + row_positions(width as int, y as int, x as int, x_step as int)
                    + rows_from(width as int, height as int, stage, y + y_step) =~= done
                    + rows_from(width as int, height as int, stage, y as int));
            }
            while x < width
                invariant
                    self.receiving_image.well_formed(),
                    self.receiving_image.width() == width,
                    self.receiving_image.height() == height,
                    self.send_stage == stage,
                    self.blur == old(self).blur,
                    1 <= side <= 64,
                    side == y_step,
                    0 < width <= u32::MAX,
                    y < height <= u32::MAX,
                    4 * width * height <= isize::MAX,
                    1 <= x_step <= 128,
                    x < width + x_step,
                    done + row_positions(width as int, y as int, x as int, x_step as int)
                        + rows_from(width as int, height as int, stage, y + y_step) == total,
                    k == done.len(),
                    data@.len() == 4 * total.len(),
                    data@.len() <= usize::MAX,
                    self.receiving_image.pixels() == paint(before, done, y_step as int, data@),
                decreases width + x_step - x,
            {
                proof {
                    let next = done.push((x as int, y as int));
                    assert(next + row_positions(
                        width as int,
                        y as int,
                        x + x_step,
                        x_step as int,
                    ) + rows_from(width as int, height as int, stage, y + y_step) =~= done
                        + row_positions(width as int, y as int, x as int, x_step as int)
                        + rows_from(width as int, height as int, stage, y + y_step));
                    assert(next.len() <= total.len());
                    assert(next.drop_last() =~= done);
                    assert(next.last() == (x as int, y as int));
                    assert(4 * k + 4 <= data@.len());
                }
                let at: usize = 4 * k;
                let px = Pixel(data[at], data[at + 1], data[at + 2], data[at + 3]);
                assert(px == sample(data@, k as int));
                paint_square(&mut self.receiving_image, x as u32, y as u32, side, px);
                proof {
                    done = done.push((x as int, y as int));
                }
                k += 1;
                x += x_step;
            }
            proof {
                vstd::arithmetic::div_mod::lemma_div_plus_one(y as int, y_step as int);
                assert(done + rows_from(width as int, height as int, stage, y + y_step) =~= done
                    + row_positions(width as int, y as int, x as int, x_step as int)
                    + rows_from(width as int, height as int, stage, y + y_step));
            }
            if x_step != y_step {
                x = 0;
            } else {
                x = start_x;
            }
            y += y_step;
        }
        assert(done =~= total);
        let _ = self.send_stage.next();
        Ok(())
    }

    /// Blanks the picture and goes back to the first stage.
    pub fn clear(&mut self)
        requires
            old(self).wf(),
        ensures
            final(self).wf(),
            final(self).image().width() == old(self).image().width(),
            final(self).image().height() == old(self).image().height(),
            final(self).image().raw() == Seq::new(
                (4 * old(self).image().width() * old(self).image().height()) as nat,
                |i: int| 0u8,
            ),
            final(self).stage() == SendStage::S64x64,
            final(self).blur() == old(self).blur(),
    {
        let dims = self.receiving_image.dimensions();
        assert(4 * dims.0 <= 4 * dims.0 * dims.1) by (nonlinear_arith)
            requires
                dims.1 >= 1,
        ;
        match Raster::blank(dims.0, dims.1) {
            Some(receiving_image) => {
                self.receiving_image = receiving_image;
            },
            None => {},
        }
        self.send_stage = SendStage::init();
    }

    /// Switches the smoothing of the shown picture on or off.
    pub fn set_blur(&mut self, blur: bool)
        ensures
            final(self).image() == old(self).image(),
            final(self).stage() == old(self).stage(),
            final(self).blur() == blur,
    {
        self.blur = blur;
    }

    /// Whether the picture is to be smoothed before it is shown: only if
    /// smoothing is switched on, and never once the image is complete.
    pub fn shows_blurred(&self) -> (b: bool)
        ensures
            b == (self.blur() && self.stage() != SendStage::End),
    {
        self.blur && self.send_stage != SendStage::End
    }
}

/// A transfer: a sender and a receiver for the same image, moved on together.
pub struct DataState {
    server: ServerData,
    client: ClientData,
}

impl DataState {
    /// The sending end.
    pub closed spec fn sender(&self) -> ServerData {
        self.server
    }

    /// The receiving end.
    pub closed spec fn receiver(&self) -> ClientData {
        self.client
    }

    /// The receiver's picture shows the sender's image as finely as the
    /// stages that have run allow: block by block in the colour of the
    /// block's corner, and pixel for pixel once all stages have run.
    pub open spec fn refined(&self) -> bool {
        self.sender().stage().is_first() || blocky(
            self.sender().image().pixels(),
            self.receiver().image().pixels(),
            self.sender().image().width(),
            self.sender().image().height(),
            self.sender().stage().reached() as int,
        )
    }

    /// Both ends are in order, their images are of one size, they are at the
    /// same stage, and the picture is as far as that stage says.
    pub open spec fn wf(&self) -> bool {
        &&& self.sender().wf()
        &&& self.receiver().wf()
        &&& self.sender().image().width() == self.receiver().image().width()
        &&& self.sender().image().height() == self.receiver().image().height()
        &&& self.sender().stage() == self.receiver().stage()
        &&& self.refined()
    }

    /// Once all stages have run, the receiver holds the sender's image byte
    /// for byte.
    pub proof fn lemma_complete_is_exact(&self)
        requires
            self.wf(),
            self.sender().stage() == SendStage::End,
        ensures
            self.receiver().image().raw() == self.sender().image().raw(),
    {
        let w = self.sender().image().width();
        let h = self.sender().image().height();
        let source = self.sender().image().pixels();
        let picture = self.receiver().image().pixels();
        assert forall|q: (int, int)| grid(w, h).contains(q) implies picture[q] == source[q] by {
            assert(q.0 / 1 * 1 == q.0 && q.1 / 1 * 1 == q.1);
        }
        assert(picture =~= source);
        lemma_pixels_fix_bytes(
            self.sender().image().raw(),
            self.receiver().image().raw(),
            w,
            h,
        );
    }

    /// A transfer of the image that a decoder delivered as `bytes`, with a
    /// blank receiver of the same size, both at the first stage.
    pub fn new(width: u32, height: u32, bytes: Vec<u8>) -> (r: Result<DataState, TransferError>)
        ensures
            r is Ok <==> width > 0 && height > 0 && bytes.len() == 4 * width * height && 4 * width
                * height <= isize::MAX,
            r matches Err(e) ==> e == TransferError::InvalidDimensions,
            r matches Ok(state) ==> state.wf() && state.sender().image().width() == width
                && state.sender().image().height() == height && state.sender().image().pixels()
                == swapped(pixels_of(bytes@, width as nat, height as nat))
                && state.receiver().image().raw() == Seq::new(
                (4 * width * height) as nat,
                |i: int| 0u8,
            ) && state.sender().stage() == SendStage::S64x64 && !state.receiver().blur(),
    {
        let client = match ClientData::new(width, height) {
            Ok(client) => client,
            Err(e) => {
                return Err(e);
            },
        };
        let server = match ServerData::new(width, height, bytes) {
            Ok(server) => server,
            Err(e) => {
                return Err(e);
            },
        };
        Ok(DataState { server, client })
    }

    /// The sending end.
    pub fn server(&self) -> (server: &ServerData)
        ensures
            *server == self.sender(),
    {
        &self.server
    }

    /// The receiving end.
    pub fn client(&self) -> (client: &ClientData)
        ensures
            *client == self.receiver(),
    {
        &self.client
    }

    /// One step of the transfer: the sender produces the samples of its
    /// stage, and the receiver takes them at once. Both ends move on by one
    /// stage, so they stay in step, and the picture gets as fine as the
    /// blocks of that stage; after the last stage it is the image itself.
    /// Then the call is refused and changes nothing.
    pub fn send(&mut self) -> (r: Result<(), TransferError>)
        requires
            old(self).wf(),
        ensures
            final(self).wf(),
            final(self).sender().image() == old(self).sender().image(),
            final(self).sender().stage() == old(self).sender().stage().successor(),
            final(self).receiver().stage() == final(self).sender().stage(),
            final(self).receiver().blur() == old(self).receiver().blur(),
            r is Ok <==> old(self).sender().stage() != SendStage::End,
            r matches Err(e) ==> e == TransferError::StageExhausted,
            r is Err ==> final(self).receiver().image() == old(self).receiver().image(),
            r is Ok ==> final(self).receiver().image().pixels() == transfer_stage(
                old(self).sender().image().pixels(),
                old(self).receiver().image().pixels(),
                old(self).sender().image().width(),
                old(self).sender().image().height(),
                old(self).sender().stage(),
            ),
            final(self).sender().stage() == SendStage::End
                ==> final(self).receiver().image().raw() == final(self).sender().image().raw(),
    {
        let ghost stage = self.server.stage();
        let ghost source = self.server.image().pixels();
        let ghost picture = self.client.image().pixels();
        let ghost w = self.server.image().width();
        let ghost h = self.server.image().height();
        let r = match self.server.send() {
            Ok(data) => self.client.receive(data.as_slice()),
            Err(e) => Err(e),
        };
        proof {
            if stage != SendStage::End {
                assert(picture.dom() =~= grid(w, h));
                lemma_stage_refines(source, picture, w, h, stage);
            }
            if self.server.stage() == SendStage::End {
                self.lemma_complete_is_exact();
            }
        }
        r
    }

    /// Starts over: both ends go back to the first stage, and the
    /// receiver's picture is blanked. This works at every stage, the end
    /// included.
    pub fn clear(&mut self)
        requires
            old(self).wf(),
        ensures
            final(self).wf(),
            final(self).sender().image() == old(self).sender().image(),
            final(self).sender().stage() == SendStage::S64x64,
            final(self).receiver().stage() == SendStage::S64x64,
            final(self).receiver().image().width() == old(self).receiver().image().width(),
            final(self).receiver().image().height() == old(self).receiver().image().height(),
            final(self).receiver().image().raw() == Seq::new(
                (4 * old(self).receiver().image().width() * old(
                    self,
                ).receiver().image().height()) as nat,
                |i: int| 0u8,
            ),
            final(self).receiver().blur() == old(self).receiver().blur(),
    {
        self.server.clear();
        self.client.clear();
    }

    /// Switches the smoothing of the receiver's shown picture on or off.
    pub fn set_blur(&mut self, blur: bool)
        requires
            old(self).wf(),
        ensures
            final(self).wf(),
            final(self).sender() == old(self).sender(),
            final(self).receiver().image() == old(self).receiver().image(),
            final(self).receiver().stage() == old(self).receiver().stage(),
            final(self).receiver().blur() == blur,
    {
        self.client.set_blur(blur);
    }
}

} // verus!
