use satellite_imagery_downloader::assemble::FetchedTile;
use satellite_imagery_downloader::assemble::assemble;
use satellite_imagery_downloader::grid::PixelPoint;
use satellite_imagery_downloader::grid::TileGrid;
use satellite_imagery_downloader::grid::resolve_grid;
use satellite_imagery_downloader::raster::Raster;
use std::io::Cursor;

/// The Web Mercator projection the application performs before calling the
/// library: continuous plane coordinates in units of tiles.
fn project_with_scale(lat: f64, lon: f64, scale: f64) -> (f64, f64) {
    let siny = lat.to_radians().sin().clamp(-0.9999, 0.9999);
    let x = scale * (0.5 + lon / 360.0);
    let y = scale * (0.5 - ((1.0 + siny) / (1.0 - siny)).ln() / (4.0 * std::f64::consts::PI));
    (x, y)
}

fn projected_grid(lat1: f64, lon1: f64, lat2: f64, lon2: f64, zoom: u8, tile_size: u32) -> TileGrid {
    let scale = (1u32 << zoom) as f64;
    let (tlx, tly) = project_with_scale(lat1, lon1, scale);
    let (brx, bry) = project_with_scale(lat2, lon2, scale);
    let ts = tile_size as f64;
    resolve_grid(
        PixelPoint { x: (tlx * ts) as i64, y: (tly * ts) as i64 },
        PixelPoint { x: (brx * ts) as i64, y: (bry * ts) as i64 },
        tile_size,
    )
}

fn solid_png(width: u32, height: u32, rgb: [u8; 3]) -> Vec<u8> {
    let img = image::RgbImage::from_pixel(width, height, image::Rgb(rgb));
    let mut bytes: Vec<u8> = Vec::new();
    img.write_to(&mut Cursor::new(&mut bytes), image::ImageFormat::Png)
        .unwrap();
    bytes
}

fn pixel(r: &Raster, x: u32, y: u32) -> Vec<u8> {
    let c = r.channels as u32;
    let start = ((y * r.width + x) * c) as usize;
    r.data[start..start + c as usize].to_vec()
}

fn tile_color(tx: i64, ty: i64) -> [u8; 3] {
    [(tx.rem_euclid(256)) as u8, (ty.rem_euclid(256)) as u8, 77]
}

#[test]
fn assembles_solid_tiles_end_to_end() {
    let grid = projected_grid(52.70868, 5.68805, 52.55495, 5.87903, 13, 256);
    assert!(grid.img_w > 0 && grid.img_h > 0);
    let tiles: Vec<FetchedTile> = grid
        .tile_indices()
        .iter()
        .map(|&(tx, ty)| FetchedTile {
            tile_x: tx,
            tile_y: ty,
            bytes: Some(solid_png(256, 256, tile_color(tx, ty))),
        })
        .collect();
    let img = assemble(&grid, &tiles, 256, 3);
    assert_eq!(img.width as u64, grid.img_w);
    assert_eq!(img.height as u64, grid.img_h);
    assert_eq!(img.channels, 3);

    // Every pixel of every visible tile block carries that tile's color;
    // sample each block's corners and center.
    for &(tx, ty) in grid.tile_indices().iter() {
        let ox = tx * 256 - grid.tl_pixel_x;
        let oy = ty * 256 - grid.tl_pixel_y;
        if ox < 0 || oy < 0 || ox >= img.width as i64 || oy >= img.height as i64 {
            continue;
        }
        let w = 256u32.min((img.width as i64 - ox) as u32);
        let h = 256u32.min((img.height as i64 - oy) as u32);
        let color = tile_color(tx, ty).to_vec();
        for (sx, sy) in [(0, 0), (w - 1, 0), (0, h - 1), (w - 1, h - 1), (w / 2, h / 2)] {
            let px = pixel(&img, ox as u32 + sx, oy as u32 + sy);
            assert_eq!(px, color, "tile ({tx},{ty}) sample ({sx},{sy})");
        }
    }
}

#[test]
fn all_failed_fetches_leave_raster_zero() {
    let grid = projected_grid(52.70868, 5.68805, 52.55495, 5.87903, 13, 256);
    let tiles: Vec<FetchedTile> = grid
        .tile_indices()
        .iter()
        .map(|&(tx, ty)| FetchedTile { tile_x: tx, tile_y: ty, bytes: None })
        .collect();
    let img = assemble(&grid, &tiles, 256, 3);
    assert_eq!(img.width as u64, grid.img_w);
    assert_eq!(img.height as u64, grid.img_h);
    assert!(img.data.iter().all(|&b| b == 0));
}

#[test]
fn non_rgb_channel_count_yields_four_channel_raster() {
    let grid = resolve_grid(
        PixelPoint { x: 0, y: 0 },
        PixelPoint { x: 512, y: 256 },
        256,
    );
    let tiles = vec![
        FetchedTile { tile_x: 0, tile_y: 0, bytes: Some(solid_png(256, 256, [1, 2, 3])) },
        FetchedTile { tile_x: 1, tile_y: 0, bytes: None },
    ];
    let img = assemble(&grid, &tiles, 256, 4);
    assert_eq!(img.channels, 4);
    assert_eq!(img.width, 512);
    assert_eq!(img.height, 256);
    // Covered region: decoded color with opaque alpha; uncovered region:
    // still fully transparent zero bytes.
    assert_eq!(pixel(&img, 0, 0), vec![1, 2, 3, 255]);
    assert_eq!(pixel(&img, 255, 255), vec![1, 2, 3, 255]);
    assert_eq!(pixel(&img, 256, 0), vec![0, 0, 0, 0]);
    assert_eq!(pixel(&img, 511, 255), vec![0, 0, 0, 0]);
}

#[test]
fn undecodable_tile_leaves_its_region_zero() {
    let grid = resolve_grid(
        PixelPoint { x: 0, y: 0 },
        PixelPoint { x: 512, y: 256 },
        256,
    );
    let tiles = vec![
        FetchedTile { tile_x: 0, tile_y: 0, bytes: Some(vec![9, 9, 9, 9]) },
        FetchedTile { tile_x: 1, tile_y: 0, bytes: Some(solid_png(256, 256, [5, 6, 7])) },
    ];
    let img = assemble(&grid, &tiles, 256, 3);
    assert_eq!(pixel(&img, 0, 0), vec![0, 0, 0]);
    assert_eq!(pixel(&img, 255, 0), vec![0, 0, 0]);
    assert_eq!(pixel(&img, 256, 0), vec![5, 6, 7]);
    assert_eq!(pixel(&img, 511, 255), vec![5, 6, 7]);
}

#[test]
fn tile_before_the_origin_is_dropped_entirely() {
    // The raster origin sits one pixel into tile (0, 0): that tile's offset
    // is negative and the whole tile is skipped, not clipped.
    let grid = resolve_grid(
        PixelPoint { x: 1, y: 0 },
        PixelPoint { x: 257, y: 256 },
        256,
    );
    assert_eq!(grid.tl_tile_x, 0);
    let tiles = vec![
        FetchedTile { tile_x: 0, tile_y: 0, bytes: Some(solid_png(256, 256, [8, 8, 8])) },
    ];
    let img = assemble(&grid, &tiles, 256, 3);
    assert!(img.data.iter().all(|&b| b == 0));
}
