use satellite_imagery_downloader::raster::Raster;

fn solid_tile(width: u32, height: u32, channels: u8, value: u8) -> Raster {
    Raster {
        data: vec![value; (width * height * channels as u32) as usize],
        width,
        height,
        channels,
    }
}

fn pixel(r: &Raster, x: u32, y: u32) -> Vec<u8> {
    let c = r.channels as u32;
    let start = ((y * r.width + x) * c) as usize;
    r.data[start..start + c as usize].to_vec()
}

#[test]
fn new_raster_is_zeroed() {
    let r = Raster::new_zeroed(4, 3, 4);
    assert_eq!(r.width, 4);
    assert_eq!(r.height, 3);
    assert_eq!(r.channels, 4);
    assert_eq!(r.data.len(), 4 * 3 * 4);
    assert!(r.data.iter().all(|&b| b == 0));
}

#[test]
fn composites_tile_fully_inside_without_touching_the_rest() {
    // Raster of 8x8 pixels over tiles of 4 pixels; origin pixel (0, 0).
    let mut img = Raster::new_zeroed(8, 8, 3);
    let tile = solid_tile(4, 4, 3, 9);
    img.composite(&tile, 1, 1, 4, 0, 0);
    for y in 0..8u32 {
        for x in 0..8u32 {
            let expected = if (4..8).contains(&x) && (4..8).contains(&y) {
                vec![9, 9, 9]
            } else {
                vec![0, 0, 0]
            };
            assert_eq!(pixel(&img, x, y), expected, "pixel ({x},{y})");
        }
    }
}

#[test]
fn skips_tile_with_negative_origin() {
    // Origin pixel (1, 0) puts tile (0, 0) at offset (-1, 0): skipped whole.
    let mut img = Raster::new_zeroed(8, 8, 3);
    let tile = solid_tile(4, 4, 3, 9);
    img.composite(&tile, 0, 0, 4, 1, 0);
    assert!(img.data.iter().all(|&b| b == 0));
}

#[test]
fn clamps_tile_overhanging_the_far_edge() {
    // Raster 6x5; tile (1, 1) at offset (4, 4) shows only 2x1 pixels.
    let mut img = Raster::new_zeroed(6, 5, 4);
    let tile = solid_tile(4, 4, 4, 7);
    img.composite(&tile, 1, 1, 4, 0, 0);
    for y in 0..5u32 {
        for x in 0..6u32 {
            let expected = if x >= 4 && y >= 4 {
                vec![7, 7, 7, 7]
            } else {
                vec![0, 0, 0, 0]
            };
            assert_eq!(pixel(&img, x, y), expected, "pixel ({x},{y})");
        }
    }
}

#[test]
fn offset_honors_raster_origin() {
    // Origin pixel (3, 2): tile (1, 1) of size 4 lands at offset (1, 2).
    let mut img = Raster::new_zeroed(8, 8, 3);
    let tile = solid_tile(4, 4, 3, 5);
    img.composite(&tile, 1, 1, 4, 3, 2);
    for y in 0..8u32 {
        for x in 0..8u32 {
            let expected = if (1..5).contains(&x) && (2..6).contains(&y) {
                vec![5, 5, 5]
            } else {
                vec![0, 0, 0]
            };
            assert_eq!(pixel(&img, x, y), expected, "pixel ({x},{y})");
        }
    }
}

#[test]
fn later_tile_overwrites_overlap() {
    let mut img = Raster::new_zeroed(4, 4, 3);
    let first = solid_tile(4, 4, 3, 1);
    let second = solid_tile(4, 4, 3, 2);
    img.composite(&first, 0, 0, 4, 0, 0);
    img.composite(&second, 0, 0, 4, 0, 0);
    assert!(img.data.iter().all(|&b| b == 2));
}
