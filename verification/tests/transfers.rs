use progressive_image::data::{swap_red_blue, ClientData, DataState, ServerData};
use progressive_image::raster::{Pixel, Raster};
use progressive_image::stage::{SendStage, TransferError};

/// A raster in which every pixel has a colour of its own.
fn distinct(width: u32, height: u32) -> Vec<u8> {
    let mut bytes = Vec::new();
    for i in 0..(width * height) {
        bytes.push((i % 251) as u8);
        bytes.push((i / 251 % 256) as u8);
        bytes.push((255 - i % 256) as u8);
        bytes.push(((i * 7 + 1) % 256) as u8);
    }
    bytes
}

/// The bytes of the pixel at `(x, y)` as the sender holds them: blue first.
fn held(width: u32, x: u32, y: u32) -> Vec<u8> {
    let i = y * width + x;
    vec![(255 - i % 256) as u8, (i / 251 % 256) as u8, (i % 251) as u8, ((i * 7 + 1) % 256) as u8]
}

fn gathered(width: u32, at: &[(u32, u32)]) -> Vec<u8> {
    let mut bytes = Vec::new();
    for (x, y) in at {
        bytes.extend(held(width, *x, *y));
    }
    bytes
}

#[test]
fn sender_keeps_the_image_with_blue_first() {
    let server = ServerData::new(2, 1, vec![1, 2, 3, 4, 5, 6, 7, 8]).unwrap();
    assert_eq!(server.sending_image().as_bytes(), &vec![3, 2, 1, 4, 7, 6, 5, 8]);
    assert_eq!(server.sending_image().dimensions(), (2, 1));
    assert_eq!(server.send_stage(), SendStage::S64x64);
}

#[test]
fn swapping_twice_gives_the_image_back() {
    let mut raster = Raster::from_bytes(3, 3, distinct(3, 3)).unwrap();
    swap_red_blue(&mut raster);
    assert_eq!(raster.pixel(1, 2), Pixel(248, 0, 7, 50));
    swap_red_blue(&mut raster);
    assert_eq!(raster.as_bytes(), &distinct(3, 3));
}

#[test]
fn sender_refuses_rasters_without_pixels() {
    assert_eq!(ServerData::new(0, 4, Vec::new()).err(), Some(TransferError::InvalidDimensions));
    assert_eq!(ServerData::new(4, 0, Vec::new()).err(), Some(TransferError::InvalidDimensions));
    assert_eq!(ServerData::new(0, 0, Vec::new()).err(), Some(TransferError::InvalidDimensions));
}

#[test]
fn sender_refuses_bytes_that_do_not_fill_the_raster() {
    assert_eq!(ServerData::new(2, 2, vec![0; 15]).err(), Some(TransferError::InvalidDimensions));
    assert_eq!(ServerData::new(2, 2, vec![0; 17]).err(), Some(TransferError::InvalidDimensions));
    assert!(ServerData::new(2, 2, vec![0; 16]).is_ok());
}

#[test]
fn receiver_refuses_rasters_without_pixels_or_beyond_memory() {
    assert_eq!(ClientData::new(0, 1).err(), Some(TransferError::InvalidDimensions));
    assert_eq!(ClientData::new(1, 0).err(), Some(TransferError::InvalidDimensions));
    assert_eq!(
        ClientData::new(u32::MAX, u32::MAX).err(),
        Some(TransferError::InvalidDimensions)
    );
}

#[test]
fn receiver_starts_blank_at_the_first_stage() {
    let client = ClientData::new(3, 2).unwrap();
    assert_eq!(client.receiving_image().as_bytes(), &vec![0u8; 24]);
    assert_eq!(client.receiving_image().dimensions(), (3, 2));
    assert_eq!(client.send_stage(), SendStage::S64x64);
    assert!(!client.shows_blurred());
}

#[test]
fn four_by_four_is_sent_in_scan_order() {
    let mut server = ServerData::new(4, 4, distinct(4, 4)).unwrap();
    assert_eq!(server.send().unwrap(), gathered(4, &[(0, 0)]));
    assert_eq!(server.send_stage(), SendStage::S32x32);
    for _ in 0..4 {
        assert_eq!(server.send().unwrap(), Vec::<u8>::new());
    }
    assert_eq!(server.send_stage(), SendStage::S2x2);
    assert_eq!(server.send().unwrap(), gathered(4, &[(2, 0), (0, 2), (2, 2)]));
    assert_eq!(
        server.send().unwrap(),
        gathered(
            4,
            &[
                (1, 0),
                (3, 0),
                (0, 1),
                (1, 1),
                (2, 1),
                (3, 1),
                (1, 2),
                (3, 2),
                (0, 3),
                (1, 3),
                (2, 3),
                (3, 3)
            ]
        )
    );
    assert_eq!(server.send_stage(), SendStage::End);
}

#[test]
fn four_by_four_sends_each_pixel_exactly_once() {
    let mut server = ServerData::new(4, 4, distinct(4, 4)).unwrap();
    let mut seen: Vec<Vec<u8>> = Vec::new();
    let mut lengths = Vec::new();
    for _ in 0..7 {
        let data = server.send().unwrap();
        lengths.push(data.len());
        for sample in data.chunks(4) {
            seen.push(sample.to_vec());
        }
    }
    assert_eq!(lengths, vec![4, 0, 0, 0, 0, 12, 48]);
    assert_eq!(lengths.iter().sum::<usize>(), 4 * 16);
    let mut all: Vec<Vec<u8>> = Vec::new();
    for y in 0..4 {
        for x in 0..4 {
            all.push(held(4, x, y));
        }
    }
    seen.sort();
    all.sort();
    assert_eq!(seen, all);
}

#[test]
fn four_by_four_is_rebuilt_after_seven_stages() {
    let mut server = ServerData::new(4, 4, distinct(4, 4)).unwrap();
    let mut client = ClientData::new(4, 4).unwrap();
    for step in 0..7 {
        assert_ne!(client.send_stage(), SendStage::End, "step {}", step);
        let data = server.send().unwrap();
        assert_eq!(client.receive(&data), Ok(()));
    }
    assert_eq!(client.send_stage(), SendStage::End);
    assert_eq!(client.receiving_image().as_bytes(), server.sending_image().as_bytes());
}

#[test]
fn picture_is_blocky_before_the_last_stage() {
    let mut state = DataState::new(4, 4, distinct(4, 4)).unwrap();
    for _ in 0..6 {
        state.send().unwrap();
    }
    assert_eq!(state.client().send_stage(), SendStage::S1x1);
    let picture = state.client().receiving_image();
    for y in 0..4 {
        for x in 0..4 {
            let p = picture.pixel(x, y);
            let expected = held(4, x / 2 * 2, y / 2 * 2);
            assert_eq!(vec![p.0, p.1, p.2, p.3], expected);
        }
    }
}

#[test]
fn first_stage_of_an_eight_by_eight_raster_sends_the_corner() {
    let mut server = ServerData::new(8, 8, distinct(8, 8)).unwrap();
    let data = server.send().unwrap();
    assert_eq!(data, held(8, 0, 0));
    assert_eq!(data.len(), 4);
}

#[test]
fn one_sample_of_the_first_stage_fills_an_eight_by_eight_raster() {
    let mut server = ServerData::new(8, 8, distinct(8, 8)).unwrap();
    let mut client = ClientData::new(8, 8).unwrap();
    let data = server.send().unwrap();
    assert_eq!(client.receive(&data), Ok(()));
    let mut expected = Vec::new();
    for _ in 0..64 {
        expected.extend(held(8, 0, 0));
    }
    assert_eq!(client.receiving_image().as_bytes(), &expected);
    assert_eq!(client.send_stage(), SendStage::S32x32);
}

#[test]
fn blocks_are_cut_off_at_the_edges() {
    let mut client = ClientData::new(70, 3).unwrap();
    let data = vec![1, 2, 3, 4, 5, 6, 7, 8];
    assert_eq!(client.receive(&data), Ok(()));
    let picture = client.receiving_image();
    assert_eq!(picture.pixel(0, 0), Pixel(1, 2, 3, 4));
    assert_eq!(picture.pixel(63, 2), Pixel(1, 2, 3, 4));
    assert_eq!(picture.pixel(64, 0), Pixel(5, 6, 7, 8));
    assert_eq!(picture.pixel(69, 2), Pixel(5, 6, 7, 8));
    assert_eq!(picture.as_bytes().len(), 4 * 70 * 3);
}

#[test]
fn rasters_of_awkward_sizes_are_rebuilt() {
    let sizes =
        [(1, 1), (1, 9), (9, 1), (20, 100), (100, 20), (65, 3), (3, 65), (33, 47), (64, 64), (67, 130)];
    for (w, h) in sizes {
        let mut state = DataState::new(w, h, distinct(w, h)).unwrap();
        for _ in 0..7 {
            assert_eq!(state.send(), Ok(()));
        }
        assert_eq!(
            state.client().receiving_image().as_bytes(),
            state.server().sending_image().as_bytes(),
            "{} x {}",
            w,
            h
        );
    }
}

#[test]
fn sending_after_the_last_stage_is_refused() {
    let mut server = ServerData::new(2, 2, distinct(2, 2)).unwrap();
    for _ in 0..7 {
        assert!(server.send().is_ok());
    }
    assert_eq!(server.send_stage(), SendStage::End);
    assert_eq!(server.send(), Err(TransferError::StageExhausted));
    assert_eq!(server.send_stage(), SendStage::End);
}

#[test]
fn receiving_after_the_last_stage_is_refused() {
    let mut client = ClientData::new(1, 1).unwrap();
    assert_eq!(client.receive(&[1, 2, 3, 4]), Ok(()));
    for _ in 0..6 {
        assert_eq!(client.receive(&[]), Ok(()));
    }
    assert_eq!(client.send_stage(), SendStage::End);
    assert_eq!(client.receive(&[]), Err(TransferError::StageExhausted));
    assert_eq!(client.receive(&[1, 2, 3, 4]), Err(TransferError::StageExhausted));
    assert_eq!(client.receiving_image().as_bytes(), &vec![1, 2, 3, 4]);
}

#[test]
fn wrong_number_of_samples_is_refused_and_changes_nothing() {
    let mut client = ClientData::new(8, 8).unwrap();
    assert_eq!(client.receive(&[1, 2, 3]), Err(TransferError::SampleCountMismatch));
    assert_eq!(client.receive(&[]), Err(TransferError::SampleCountMismatch));
    assert_eq!(client.receive(&[0; 8]), Err(TransferError::SampleCountMismatch));
    assert_eq!(client.send_stage(), SendStage::S64x64);
    assert_eq!(client.receiving_image().as_bytes(), &vec![0u8; 256]);
    assert_eq!(client.receive(&[9, 9, 9, 9]), Ok(()));
    assert_eq!(client.receive(&[9, 9, 9, 9]), Err(TransferError::SampleCountMismatch));
    assert_eq!(client.send_stage(), SendStage::S32x32);
}

#[test]
fn transfer_refuses_bad_dimensions() {
    assert_eq!(DataState::new(0, 0, Vec::new()).err(), Some(TransferError::InvalidDimensions));
    assert_eq!(DataState::new(2, 2, vec![0; 12]).err(), Some(TransferError::InvalidDimensions));
    assert!(DataState::new(2, 2, vec![0; 16]).is_ok());
}

#[test]
fn both_ends_stay_in_step() {
    let mut state = DataState::new(6, 5, distinct(6, 5)).unwrap();
    assert_eq!(state.server().send_stage(), state.client().send_stage());
    let script = [
        true, true, false, true, true, true, false, false, true, true, true, true, true, true, true,
        true, true, false, true,
    ];
    for send in script {
        if send {
            let before = state.server().send_stage();
            let outcome = state.send();
            assert_eq!(outcome.is_err(), before == SendStage::End);
        } else {
            state.clear();
            assert_eq!(state.server().send_stage(), SendStage::S64x64);
        }
        assert_eq!(state.server().send_stage(), state.client().send_stage());
    }
}

#[test]
fn transfer_stops_at_the_end() {
    let mut state = DataState::new(3, 3, distinct(3, 3)).unwrap();
    for _ in 0..7 {
        assert_eq!(state.send(), Ok(()));
    }
    let done = state.client().receiving_image().as_bytes().clone();
    assert_eq!(state.send(), Err(TransferError::StageExhausted));
    assert_eq!(state.server().send_stage(), SendStage::End);
    assert_eq!(state.client().send_stage(), SendStage::End);
    assert_eq!(state.client().receiving_image().as_bytes(), &done);
}

#[test]
fn clear_starts_over_from_every_stage() {
    for steps in 0..=8 {
        let mut state = DataState::new(5, 4, distinct(5, 4)).unwrap();
        for _ in 0..steps {
            let _ = state.send();
        }
        let source = state.server().sending_image().as_bytes().clone();
        state.clear();
        assert_eq!(state.server().send_stage(), SendStage::S64x64);
        assert_eq!(state.client().send_stage(), SendStage::S64x64);
        assert_eq!(state.client().receiving_image().as_bytes(), &vec![0u8; 80]);
        assert_eq!(state.client().receiving_image().dimensions(), (5, 4));
        assert_eq!(state.server().sending_image().as_bytes(), &source);
        state.clear();
        assert_eq!(state.client().send_stage(), SendStage::S64x64);
        assert_eq!(state.client().receiving_image().as_bytes(), &vec![0u8; 80]);
    }
}

#[test]
fn transfer_can_be_repeated_after_clear() {
    let mut state = DataState::new(7, 3, distinct(7, 3)).unwrap();
    for _ in 0..3 {
        state.send().unwrap();
    }
    state.clear();
    for _ in 0..7 {
        state.send().unwrap();
    }
    assert_eq!(
        state.client().receiving_image().as_bytes(),
        state.server().sending_image().as_bytes()
    );
}

#[test]
fn picture_is_smoothed_only_while_incomplete() {
    let mut state = DataState::new(2, 2, distinct(2, 2)).unwrap();
    assert!(!state.client().shows_blurred());
    state.set_blur(true);
    for _ in 0..7 {
        assert!(state.client().shows_blurred());
        state.send().unwrap();
    }
    assert!(!state.client().shows_blurred());
    state.clear();
    assert!(state.client().shows_blurred());
    state.set_blur(false);
    assert!(!state.client().shows_blurred());
}
