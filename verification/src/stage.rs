//! The refinement schedule: seven stages of ever smaller blocks, then the end.

use vstd::prelude::*;

verus! {

/// Why a transfer step was refused. None of these is recovered from inside
/// the library: the caller starts over with `clear`.
#[derive(Clone, Copy, Debug, PartialEq, Eq, Structural)]
pub enum TransferError {
    /// A stage was asked for after the last one.
    StageExhausted,
    /// The receiver was handed another number of bytes than its stage takes.
    SampleCountMismatch,
    /// A raster with no pixels, or bytes that do not fill its dimensions.
    InvalidDimensions,
}

/// A refinement level, named by the side of the blocks that it fills.
#[derive(Clone, Copy, Debug, PartialEq, Eq, Structural)]
pub enum SendStage {
    S64x64,
    S32x32,
    S16x16,
    S8x8,
    S4x4,
    S2x2,
    S1x1,
    End,
}

impl SendStage {
    /// The side of a block in pixels; 0 once the schedule has ended.
    pub open spec fn block_size(self) -> nat {
        match self {
            SendStage::S64x64 => 64,
            SendStage::S32x32 => 32,
            SendStage::S16x16 => 16,
            SendStage::S8x8 => 8,
            SendStage::S4x4 => 4,
            SendStage::S2x2 => 2,
            SendStage::S1x1 => 1,
            SendStage::End => 0,
        }
    }

    /// The coarsest stage, with which every transfer begins.
    pub open spec fn is_first(self) -> bool {
        self == SendStage::S64x64
    }

    /// The stage that follows; the end follows itself.
    pub open spec fn successor(self) -> SendStage {
        match self {
            SendStage::S64x64 => SendStage::S32x32,
            SendStage::S32x32 => SendStage::S16x16,
            SendStage::S16x16 => SendStage::S8x8,
            SendStage::S8x8 => SendStage::S4x4,
            SendStage::S4x4 => SendStage::S2x2,
            SendStage::S2x2 => SendStage::S1x1,
            SendStage::S1x1 => SendStage::End,
            SendStage::End => SendStage::End,
        }
    }

    /// How many stages are still to run, the current one included.
    pub open spec fn remaining(self) -> nat {
        match self {
            SendStage::S64x64 => 7,
            SendStage::S32x32 => 6,
            SendStage::S16x16 => 5,
            SendStage::S8x8 => 4,
            SendStage::S4x4 => 3,
            SendStage::S2x2 => 2,
            SendStage::S1x1 => 1,
            SendStage::End => 0,
        }
    }

    /// The side of the blocks down to which the stages before this one have
    /// refined a picture: 0 before the first stage, 1 once all have run.
    pub open spec fn reached(self) -> nat {
        match self {
            SendStage::S64x64 => 0,
            SendStage::S32x32 => 64,
            SendStage::S16x16 => 32,
            SendStage::S8x8 => 16,
            SendStage::S4x4 => 8,
            SendStage::S2x2 => 4,
            SendStage::S1x1 => 2,
            SendStage::End => 1,
        }
    }

    /// The distance between two samples in block row `block_row`. The first
    /// stage samples every block. A later stage skips, in its even rows, the
    /// blocks whose corner an earlier stage has sent: there it moves by two
    /// blocks, in its odd rows by one.
    pub open spec fn row_stride(self, block_row: int) -> nat {
        if self.is_first() || block_row % 2 != 0 {
            self.block_size()
        } else {
            2 * self.block_size()
        }
    }

    /// The column of the first sample in block row `block_row`: one block in
    /// where a later stage moves by two blocks, 0 otherwise.
    pub open spec fn row_start(self, block_row: int) -> nat {
        if self.is_first() || block_row % 2 != 0 {
            0
        } else {
            self.block_size()
        }
    }

    /// The stage at which a transfer begins.
    pub fn init() -> (stage: SendStage)
        ensures
            stage == SendStage::S64x64,
    {
        SendStage::S64x64
    }

    /// Moves on to the following stage. After the last stage nothing follows:
    /// the call is refused and the stage stays where it is.
    pub fn next(&mut self) -> (r: Result<(), TransferError>)
        ensures
            *old(self) != SendStage::End ==> r is Ok && *final(self) == old(self).successor(),
            *old(self) == SendStage::End ==> r == Err::<(), TransferError>(
                TransferError::StageExhausted,
            ) && *final(self) == SendStage::End,
    {
        match *self {
            SendStage::S64x64 => *self = SendStage::S32x32,
            SendStage::S32x32 => *self = SendStage::S16x16,
            SendStage::S16x16 => *self = SendStage::S8x8,
            SendStage::S8x8 => *self = SendStage::S4x4,
            SendStage::S4x4 => *self = SendStage::S2x2,
            SendStage::S2x2 => *self = SendStage::S1x1,
            SendStage::S1x1 => *self = SendStage::End,
            SendStage::End => return Err(TransferError::StageExhausted),
        }
        Ok(())
    }

    /// The side of this stage's blocks, which is also the distance between
    /// two sampled rows.
    pub fn y_step(&self) -> (s: u32)
        requires
            *self != SendStage::End,
        ensures
            s == self.block_size(),
            1 <= s <= 64,
    {
        match self {
            SendStage::S64x64 => 64,
            SendStage::S32x32 => 32,
            SendStage::S16x16 => 16,
            SendStage::S8x8 => 8,
            SendStage::S4x4 => 4,
            SendStage::S2x2 => 2,
            _ => 1,
        }
    }

    /// The distance between two samples in block row `y`.
    pub fn x_step(&self, y: u32) -> (s: u32)
        requires
            *self != SendStage::End,
        ensures
            s == self.row_stride(y as int),
    {
        let side: u32 = self.y_step();
        if side == 64 || y % 2 != 0 {
            side
        } else {
            2 * side
        }
    }
}

} // verus!
