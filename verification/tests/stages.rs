use progressive_image::scan::sample_count;
use progressive_image::stage::{SendStage, TransferError};

const ALL: [SendStage; 7] = [
    SendStage::S64x64,
    SendStage::S32x32,
    SendStage::S16x16,
    SendStage::S8x8,
    SendStage::S4x4,
    SendStage::S2x2,
    SendStage::S1x1,
];

#[test]
fn schedule_starts_with_the_coarsest_stage() {
    assert_eq!(SendStage::init(), SendStage::S64x64);
}

#[test]
fn next_walks_through_every_stage_in_order() {
    let mut stage = SendStage::init();
    for expected in ALL.iter().skip(1) {
        assert_eq!(stage.next(), Ok(()));
        assert_eq!(stage, *expected);
    }
    assert_eq!(stage.next(), Ok(()));
    assert_eq!(stage, SendStage::End);
}

#[test]
fn next_after_the_end_is_refused() {
    let mut stage = SendStage::End;
    assert_eq!(stage.next(), Err(TransferError::StageExhausted));
    assert_eq!(stage, SendStage::End);
    assert_eq!(stage.next(), Err(TransferError::StageExhausted));
}

#[test]
fn block_side_halves_from_stage_to_stage() {
    let sides: Vec<u32> = ALL.iter().map(|s| s.y_step()).collect();
    assert_eq!(sides, vec![64, 32, 16, 8, 4, 2, 1]);
}

#[test]
fn first_stage_moves_by_one_block_in_every_row() {
    for row in 0..6 {
        assert_eq!(SendStage::S64x64.x_step(row), 64);
    }
}

#[test]
fn later_stages_move_by_two_blocks_in_even_rows() {
    assert_eq!(SendStage::S32x32.x_step(0), 64);
    assert_eq!(SendStage::S32x32.x_step(1), 32);
    assert_eq!(SendStage::S32x32.x_step(2), 64);
    assert_eq!(SendStage::S16x16.x_step(4), 32);
    assert_eq!(SendStage::S16x16.x_step(5), 16);
    assert_eq!(SendStage::S8x8.x_step(0), 16);
    assert_eq!(SendStage::S8x8.x_step(7), 8);
    assert_eq!(SendStage::S4x4.x_step(10), 8);
    assert_eq!(SendStage::S4x4.x_step(11), 4);
    assert_eq!(SendStage::S2x2.x_step(0), 4);
    assert_eq!(SendStage::S2x2.x_step(3), 2);
    assert_eq!(SendStage::S1x1.x_step(0), 2);
    assert_eq!(SendStage::S1x1.x_step(1), 1);
    assert_eq!(SendStage::S1x1.x_step(u32::MAX), 1);
}

#[test]
fn sample_counts_of_a_four_by_four_raster() {
    let counts: Vec<u64> = ALL.iter().map(|s| sample_count(4, 4, *s)).collect();
    assert_eq!(counts, vec![1, 0, 0, 0, 0, 3, 12]);
    assert_eq!(sample_count(4, 4, SendStage::End), 0);
}

#[test]
fn sample_counts_of_a_hundred_by_hundred_raster() {
    assert_eq!(sample_count(100, 100, SendStage::S64x64), 4);
    assert_eq!(sample_count(100, 100, SendStage::S32x32), 12);
    assert_eq!(sample_count(100, 100, SendStage::S16x16), 7 * 7 - 4 * 4);
    assert_eq!(sample_count(100, 100, SendStage::S8x8), 13 * 13 - 7 * 7);
    assert_eq!(sample_count(100, 100, SendStage::S4x4), 25 * 25 - 13 * 13);
    assert_eq!(sample_count(100, 100, SendStage::S2x2), 50 * 50 - 25 * 25);
    assert_eq!(sample_count(100, 100, SendStage::S1x1), 100 * 100 - 50 * 50);
}

#[test]
fn sample_count_is_the_same_when_asked_twice() {
    for stage in ALL {
        assert_eq!(sample_count(37, 91, stage), sample_count(37, 91, stage));
    }
}

#[test]
fn sample_counts_add_up_to_the_number_of_pixels() {
    let sizes =
        [(1, 1), (1, 7), (7, 1), (4, 4), (8, 8), (20, 100), (100, 20), (65, 129), (64, 64), (63, 130)];
    for (w, h) in sizes {
        let total: u64 = ALL.iter().map(|s| sample_count(w, h, *s)).sum();
        assert_eq!(total, w as u64 * h as u64);
    }
}

#[test]
fn sample_count_of_a_narrow_tall_raster() {
    assert_eq!(sample_count(20, 100, SendStage::S64x64), 2);
    assert_eq!(sample_count(20, 100, SendStage::S32x32), 2);
    assert_eq!(sample_count(20, 100, SendStage::S16x16), 1 + 2 + 1 + 2 + 1 + 2 + 1);
}
