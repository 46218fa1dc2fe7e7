//! Assembly of fetched tiles into the output raster.
//!
//! The surrounding application fetches each tile's bytes over the network
//! and hands them here together with the tile's index; a fetch that failed
//! is handed in as `None`. Assembly allocates the zero-initialized output
//! raster, decodes each tile that arrived and composites it at its place.
//! Failures are silent gaps: an undecodable or missing tile leaves its
//! region at the zero value, and assembly as a whole always yields a raster
//! of the resolved dimensions.

use crate::codec::{decode_tile, decoding, DecodedTile};
use crate::grid::TileGrid;
use crate::raster::{blit, copy_extent, Raster};
use vstd::prelude::*;

verus! {

/// One unit of fetch work: a tile index and the bytes the server returned,
/// or `None` when the fetch failed.
pub struct FetchedTile {
    pub tile_x: i64,
    pub tile_y: i64,
    pub bytes: Option<Vec<u8>>,
}

/// A buffer of `n` zero bytes.
pub open spec fn zero_data(n: int) -> Seq<u8> {
    Seq::new(n as nat, |i: int| 0u8)
}

/// The raster buffer after processing one fetched tile: unchanged when the
/// fetch failed, when the bytes do not decode, or when the tile's computed
/// origin is negative; otherwise the decoded pixels are blitted in, clamped
/// to the raster.
pub open spec fn composite_step(
    data: Seq<u8>,
    img_w: int,
    img_h: int,
    c: int,
    t: FetchedTile,
    tile_size: int,
    tl_pixel_x: int,
    tl_pixel_y: int,
    rgb: bool,
) -> Seq<u8> {
    match t.bytes {
        Some(b) => match decoding(b@, rgb) {
            Some(d) => {
                let ox = t.tile_x * tile_size - tl_pixel_x;
                let oy = t.tile_y * tile_size - tl_pixel_y;
                if ox >= 0 && oy >= 0 {
                    blit(
                        data,
                        d.pixels,
                        img_w,
                        c,
                        d.width as int,
                        ox,
                        oy,
                        copy_extent(d.width as int, img_w, ox),
                        copy_extent(d.height as int, img_h, oy),
                    )
                } else {
                    data
                }
            },
            None => data,
        },
        None => data,
    }
}

/// The raster buffer after processing the first `n` fetched tiles in order.
pub open spec fn assembled(
    data0: Seq<u8>,
    img_w: int,
    img_h: int,
    c: int,
    tiles: Seq<FetchedTile>,
    n: int,
    tile_size: int,
    tl_pixel_x: int,
    tl_pixel_y: int,
    rgb: bool,
) -> Seq<u8>
    decreases n,
{
    if n <= 0 {
        data0
    } else {
        composite_step(
            assembled(data0, img_w, img_h, c, tiles, n - 1, tile_size, tl_pixel_x, tl_pixel_y, rgb),
            img_w,
            img_h,
            c,
            tiles[n - 1],
            tile_size,
            tl_pixel_x,
            tl_pixel_y,
            rgb,
        )
    }
}

/// When every fetch failed, assembly changes nothing: the buffer keeps its
/// initial, all-zero value.
pub proof fn lemma_all_failed_stays_initial(
    data0: Seq<u8>,
    img_w: int,
    img_h: int,
    c: int,
    tiles: Seq<FetchedTile>,
    n: int,
    tile_size: int,
    tl_pixel_x: int,
    tl_pixel_y: int,
    rgb: bool,
)
    requires
        0 <= n <= tiles.len(),
        forall|k: int| 0 <= k < n ==> tiles[k].bytes is None,
    ensures
        assembled(data0, img_w, img_h, c, tiles, n, tile_size, tl_pixel_x, tl_pixel_y, rgb)
            == data0,
    decreases n,
{
    if n > 0 {
        lemma_all_failed_stays_initial(
            data0,
            img_w,
            img_h,
            c,
            tiles,
            n - 1,
            tile_size,
            tl_pixel_x,
            tl_pixel_y,
            rgb,
        );
    }
}

/// Allocates the zero-initialized output raster for the resolved grid and
/// composites every fetched tile into it, in order. The raster always comes
/// back at the grid's dimensions, with three channels for a requested
/// channel count of 3 and four channels (alpha, zero until a tile covers
/// it) for any other count; tiles that failed to fetch or to decode leave
/// their region zero.
#[verifier::loop_isolation(false)]
pub fn assemble(grid: &TileGrid, tiles: &Vec<FetchedTile>, tile_size: u32, channels: u8) -> (img:
    Raster)
    requires
        grid.img_w <= u32::MAX,
        grid.img_h <= u32::MAX,
        grid.img_w * grid.img_h * (if channels == 3 {
            3int
        } else {
            4int
        }) <= usize::MAX,
    ensures
        img.wf(),
        img.width == grid.img_w,
        img.height == grid.img_h,
        img.channels == (if channels == 3 {
            3u8
        } else {
            4u8
        }),
        img.data@ == assembled(
            zero_data(img.width as int * img.height as int * img.channels as int),
            img.width as int,
            img.height as int,
            img.channels as int,
            tiles@,
            tiles@.len() as int,
            tile_size as int,
            grid.tl_pixel_x as int,
            grid.tl_pixel_y as int,
            channels == 3,
        ),
{
    let c: u8 = if channels == 3 {
        3
    } else {
        4
    };
    let mut img = Raster::new_zeroed(grid.img_w as u32, grid.img_h as u32, c);
    let ghost z = zero_data(img.width as int * img.height as int * img.channels as int);
    proof {
        assert(img.data@ =~= z);
    }
    let mut k: usize = 0;
    while k < tiles.len()
        invariant
            k <= tiles@.len(),
            img.wf(),
            img.width == grid.img_w,
            img.height == grid.img_h,
            img.channels == c,
            img.data@ == assembled(
                z,
                img.width as int,
                img.height as int,
                img.channels as int,
                tiles@,
                k as int,
                tile_size as int,
                grid.tl_pixel_x as int,
                grid.tl_pixel_y as int,
                channels == 3,
            ),
        decreases tiles@.len() - k,
    {
        let t = &tiles[k];
        match &t.bytes {
            Some(b) => {
                match decode_tile(b, channels) {
                    Some(tile) => {
                        img.composite(
                            &tile,
                            t.tile_x,
                            t.tile_y,
                            tile_size,
                            grid.tl_pixel_x,
                            grid.tl_pixel_y,
                        );
                    },
                    None => {},
                }
            },
            None => {},
        }
        k = k + 1;
    }
    img
}

} // verus!
