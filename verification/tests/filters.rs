use progressive_image::filter::{
    clamp_coord, kernel_offset, neighborhood, with_colours, WeightClass, WEIGHT_SCALE, WINDOW,
};
use progressive_image::raster::{Pixel, Raster};

#[test]
fn window_has_every_offset_once() {
    assert_eq!(WINDOW, 25);
    let mut offsets: Vec<(i32, i32)> = (0..WINDOW).map(kernel_offset).collect();
    offsets.sort();
    let mut all = Vec::new();
    for dx in -2..=2 {
        for dy in -2..=2 {
            all.push((dx, dy));
        }
    }
    assert_eq!(offsets, all);
}

#[test]
fn window_goes_class_by_class_from_the_outside_in() {
    let classes: Vec<WeightClass> = (0..WINDOW)
        .map(|k| {
            let d = kernel_offset(k);
            WeightClass::classify(d.0, d.1)
        })
        .collect();
    let mut expected = vec![WeightClass::OuterCorner; 4];
    expected.extend(vec![WeightClass::OuterEdge; 8]);
    expected.extend(vec![WeightClass::OuterMidEdge; 4]);
    expected.extend(vec![WeightClass::InnerCorner; 4]);
    expected.extend(vec![WeightClass::InnerEdge; 4]);
    expected.push(WeightClass::Own);
    assert_eq!(classes, expected);
    assert_eq!(kernel_offset(0), (-2, -2));
    assert_eq!(kernel_offset(5), (-2, 1));
    assert_eq!(kernel_offset(13), (0, -2));
    assert_eq!(kernel_offset(24), (0, 0));
}

#[test]
fn classes_go_by_distance_from_the_centre() {
    assert_eq!(WeightClass::classify(2, -2), WeightClass::OuterCorner);
    assert_eq!(WeightClass::classify(-2, 1), WeightClass::OuterEdge);
    assert_eq!(WeightClass::classify(1, 2), WeightClass::OuterEdge);
    assert_eq!(WeightClass::classify(0, -2), WeightClass::OuterMidEdge);
    assert_eq!(WeightClass::classify(2, 0), WeightClass::OuterMidEdge);
    assert_eq!(WeightClass::classify(-1, -1), WeightClass::InnerCorner);
    assert_eq!(WeightClass::classify(0, 1), WeightClass::InnerEdge);
    assert_eq!(WeightClass::classify(-1, 0), WeightClass::InnerEdge);
    assert_eq!(WeightClass::classify(0, 0), WeightClass::Own);
}

#[test]
fn weights_are_those_of_the_table() {
    assert_eq!(WEIGHT_SCALE, 10_000_000);
    assert_eq!(WeightClass::OuterCorner.numerator(), 396_455);
    assert_eq!(WeightClass::OuterEdge.numerator(), 399_107);
    assert_eq!(WeightClass::OuterMidEdge.numerator(), 399_994);
    assert_eq!(WeightClass::InnerCorner.numerator(), 401_776);
    assert_eq!(WeightClass::InnerEdge.numerator(), 402_670);
    assert_eq!(WeightClass::Own.numerator(), 403_566);
    assert_eq!(WeightClass::Own.numerator() as f32 / WEIGHT_SCALE as f32, 0.0403566f32);
    assert_eq!(WeightClass::OuterCorner.numerator() as f32 / WEIGHT_SCALE as f32, 0.0396455f32);
}

#[test]
fn weights_of_a_window_add_up_to_about_one() {
    let total: u32 = (0..WINDOW)
        .map(|k| {
            let d = kernel_offset(k);
            WeightClass::classify(d.0, d.1).numerator()
        })
        .sum();
    assert_eq!(total, 10_000_002);
}

#[test]
fn coordinates_are_clamped_to_the_raster() {
    assert_eq!(clamp_coord(0, -2, 10), 0);
    assert_eq!(clamp_coord(1, -2, 10), 0);
    assert_eq!(clamp_coord(2, -2, 10), 0);
    assert_eq!(clamp_coord(3, -2, 10), 1);
    assert_eq!(clamp_coord(5, 0, 10), 5);
    assert_eq!(clamp_coord(7, 2, 10), 9);
    assert_eq!(clamp_coord(8, 2, 10), 9);
    assert_eq!(clamp_coord(9, 1, 10), 9);
    assert_eq!(clamp_coord(0, 2, 1), 0);
    assert_eq!(clamp_coord(0, -1, 1), 0);
    assert_eq!(clamp_coord(u32::MAX - 1, 2, u32::MAX), u32::MAX - 1);
}

#[test]
fn window_of_a_single_pixel_is_that_pixel() {
    let raster = Raster::from_bytes(1, 1, vec![10, 20, 30, 40]).unwrap();
    assert_eq!(neighborhood(&raster, 0, 0), vec![Pixel(10, 20, 30, 40); 25]);
}

#[test]
fn window_of_a_uniform_raster_is_uniform() {
    let mut bytes = Vec::new();
    for _ in 0..(6 * 4) {
        bytes.extend([200, 100, 50, 255]);
    }
    let raster = Raster::from_bytes(6, 4, bytes).unwrap();
    for y in 0..4 {
        for x in 0..6 {
            assert_eq!(neighborhood(&raster, x, y), vec![Pixel(200, 100, 50, 255); 25]);
        }
    }
}

#[test]
fn window_in_the_middle_reads_its_neighbours() {
    let mut bytes = Vec::new();
    for y in 0..5u8 {
        for x in 0..5u8 {
            bytes.extend([x, y, 10 * y + x, 255]);
        }
    }
    let raster = Raster::from_bytes(5, 5, bytes).unwrap();
    let window = neighborhood(&raster, 2, 2);
    assert_eq!(window.len(), 25);
    for k in 0..WINDOW {
        let d = kernel_offset(k);
        let x = (2 + d.0) as u8;
        let y = (2 + d.1) as u8;
        assert_eq!(window[k], Pixel(x, y, 10 * y + x, 255));
    }
    assert_eq!(window[0], Pixel(0, 0, 0, 255));
    assert_eq!(window[1], Pixel(0, 4, 40, 255));
    assert_eq!(window[24], Pixel(2, 2, 22, 255));
}

#[test]
fn window_at_a_corner_repeats_the_edge() {
    let mut bytes = Vec::new();
    for y in 0..3u8 {
        for x in 0..4u8 {
            bytes.extend([x, y, 0, 0]);
        }
    }
    let raster = Raster::from_bytes(4, 3, bytes).unwrap();
    let window = neighborhood(&raster, 0, 0);
    assert_eq!(window[0], Pixel(0, 0, 0, 0));
    assert_eq!(window[1], Pixel(0, 2, 0, 0));
    assert_eq!(window[2], Pixel(2, 0, 0, 0));
    assert_eq!(window[3], Pixel(2, 2, 0, 0));
    assert_eq!(window[20], Pixel(0, 0, 0, 0));
    assert_eq!(window[23], Pixel(1, 0, 0, 0));
    let window = neighborhood(&raster, 3, 2);
    assert_eq!(window[0], Pixel(1, 0, 0, 0));
    assert_eq!(window[3], Pixel(3, 2, 0, 0));
    assert_eq!(window[15], Pixel(3, 2, 0, 0));
    assert_eq!(window[12], Pixel(1, 2, 0, 0));
}

#[test]
fn weighted_mean_of_equal_samples_is_their_value_within_rounding() {
    for value in [0u8, 1, 17, 128, 200, 254, 255] {
        let raster = Raster::from_bytes(1, 1, vec![value, value, value, 9]).unwrap();
        let window = neighborhood(&raster, 0, 0);
        let mut exact: u64 = 0;
        let mut float = 0.0f32;
        for k in 0..WINDOW {
            let d = kernel_offset(k);
            let weight = WeightClass::classify(d.0, d.1).numerator();
            exact += weight as u64 * window[k].0 as u64;
            float += window[k].0 as f32 * (weight as f32 / WEIGHT_SCALE as f32);
        }
        assert_eq!(exact / WEIGHT_SCALE as u64, value as u64);
        assert!((float - value as f32).abs() < 0.01);
    }
}

#[test]
fn smoothed_picture_takes_the_colours_and_keeps_alpha_and_size() {
    let mut bytes = Vec::new();
    for i in 0..6u8 {
        bytes.extend([i, 10 + i, 20 + i, 100 + i]);
    }
    let picture = Raster::from_bytes(3, 2, bytes.clone()).unwrap();
    let colours: Vec<Pixel> = (0..6u8).map(|i| Pixel(50 + i, 60 + i, 70 + i, 255)).collect();
    let out = with_colours(&picture, &colours).unwrap();
    assert_eq!(out.dimensions(), (3, 2));
    let mut expected = Vec::new();
    for i in 0..6u8 {
        expected.extend([50 + i, 60 + i, 70 + i, 100 + i]);
    }
    assert_eq!(out.as_bytes(), &expected);
    assert_eq!(out.pixel(1, 1), Pixel(54, 64, 74, 104));
    assert_eq!(picture.as_bytes(), &bytes);
}

#[test]
fn smoothed_picture_needs_one_colour_for_each_pixel() {
    let picture = Raster::from_bytes(3, 2, vec![7; 24]).unwrap();
    assert!(with_colours(&picture, &vec![Pixel(1, 2, 3, 4); 5]).is_none());
    assert!(with_colours(&picture, &vec![Pixel(1, 2, 3, 4); 7]).is_none());
    assert!(with_colours(&picture, &Vec::new()).is_none());
    assert!(with_colours(&picture, &vec![Pixel(1, 2, 3, 4); 6]).is_some());
    let empty = Raster::from_bytes(5, 0, Vec::new()).unwrap();
    let out = with_colours(&empty, &Vec::new()).unwrap();
    assert_eq!(out.dimensions(), (5, 0));
    assert!(with_colours(&empty, &vec![Pixel(1, 2, 3, 4); 1]).is_none());
}
