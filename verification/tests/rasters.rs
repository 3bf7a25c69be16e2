use progressive_image::paint::paint_square;
use progressive_image::raster::{byte_count, Pixel, Raster};

fn numbered(width: u32, height: u32) -> Vec<u8> {
    let mut bytes = Vec::new();
    for i in 0..(4 * width * height) {
        bytes.push((i % 256) as u8);
    }
    bytes
}

#[test]
fn byte_count_is_four_per_pixel() {
    assert_eq!(byte_count(0, 9), 0);
    assert_eq!(byte_count(3, 5), 60);
    assert_eq!(byte_count(u32::MAX, u32::MAX), 4 * (u32::MAX as u128) * (u32::MAX as u128));
}

#[test]
fn raster_keeps_the_bytes_it_is_made_of() {
    let raster = Raster::from_bytes(2, 3, numbered(2, 3)).unwrap();
    assert_eq!(raster.dimensions(), (2, 3));
    assert_eq!(raster.as_bytes(), &numbered(2, 3));
}

#[test]
fn raster_refuses_too_few_or_too_many_bytes() {
    assert!(Raster::from_bytes(2, 3, vec![0; 23]).is_none());
    assert!(Raster::from_bytes(2, 3, vec![0; 25]).is_none());
    assert!(Raster::from_bytes(2, 3, Vec::new()).is_none());
    assert!(Raster::from_bytes(0, 3, Vec::new()).is_some());
}

#[test]
fn blank_raster_is_all_zero() {
    let raster = Raster::blank(3, 2).unwrap();
    assert_eq!(raster.dimensions(), (3, 2));
    assert_eq!(raster.as_bytes(), &vec![0u8; 24]);
}

#[test]
fn blank_raster_that_cannot_be_allocated_is_refused() {
    assert!(Raster::blank(u32::MAX, u32::MAX).is_none());
}

#[test]
fn pixel_reads_row_major() {
    let raster = Raster::from_bytes(3, 2, numbered(3, 2)).unwrap();
    assert_eq!(raster.pixel(0, 0), Pixel(0, 1, 2, 3));
    assert_eq!(raster.pixel(2, 0), Pixel(8, 9, 10, 11));
    assert_eq!(raster.pixel(0, 1), Pixel(12, 13, 14, 15));
    assert_eq!(raster.pixel(1, 1), Pixel(16, 17, 18, 19));
}

#[test]
fn put_changes_one_pixel_and_no_other() {
    let mut raster = Raster::from_bytes(3, 2, numbered(3, 2)).unwrap();
    raster.put(1, 1, Pixel(200, 201, 202, 203));
    let mut expected = numbered(3, 2);
    expected[16] = 200;
    expected[17] = 201;
    expected[18] = 202;
    expected[19] = 203;
    assert_eq!(raster.as_bytes(), &expected);
    assert_eq!(raster.dimensions(), (3, 2));
    assert_eq!(raster.pixel(1, 1), Pixel(200, 201, 202, 203));
    assert_eq!(raster.pixel(0, 1), Pixel(12, 13, 14, 15));
}

#[test]
fn square_is_painted_inside_the_raster_only() {
    let mut raster = Raster::blank(4, 3).unwrap();
    paint_square(&mut raster, 2, 1, 5, Pixel(1, 2, 3, 4));
    for y in 0..3 {
        for x in 0..4 {
            let expected = if x >= 2 && y >= 1 { Pixel(1, 2, 3, 4) } else { Pixel(0, 0, 0, 0) };
            assert_eq!(raster.pixel(x, y), expected);
        }
    }
    paint_square(&mut raster, 0, 0, 1, Pixel(9, 9, 9, 9));
    assert_eq!(raster.pixel(0, 0), Pixel(9, 9, 9, 9));
    assert_eq!(raster.pixel(1, 0), Pixel(0, 0, 0, 0));
    assert_eq!(raster.pixel(0, 1), Pixel(0, 0, 0, 0));
    let before = raster.as_bytes().clone();
    paint_square(&mut raster, 4, 0, 2, Pixel(7, 7, 7, 7));
    paint_square(&mut raster, 0, 3, 2, Pixel(7, 7, 7, 7));
    paint_square(&mut raster, 1, 1, 0, Pixel(7, 7, 7, 7));
    assert_eq!(raster.as_bytes(), &before);
}
