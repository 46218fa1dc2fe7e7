//! Tile grid resolution.
//!
//! The caller projects each corner of the requested bounding box to the
//! continuous Web Mercator plane (in units of tiles), multiplies by the tile
//! size and truncates to a whole pixel; this module receives only those
//! integer pixel coordinates. From them it derives the integer tile-index
//! range covering the box and the pixel dimensions of the output raster.
//!
//! Tile indices are derived from the pixel coordinates by floor division by
//! the tile size, which coincides with truncating the continuous coordinate
//! whenever that coordinate is non-negative — that is, for every in-range
//! latitude and longitude. Out-of-range inputs produce mathematically
//! extrapolated but meaningless indices, never a crash.

use vstd::arithmetic::div_mod::{lemma_fundamental_div_mod, lemma_fundamental_div_mod_converse};
use vstd::prelude::*;

verus! {

/// One corner of the requested area after projection: the continuous plane
/// coordinate multiplied by the tile size and truncated to a whole pixel.
pub struct PixelPoint {
    pub x: i64,
    pub y: i64,
}

/// The resolved grid: the pixel-space bounding box, the inclusive tile-index
/// bounding box, and the output raster dimensions.
pub struct TileGrid {
    pub tl_pixel_x: i64,
    pub tl_pixel_y: i64,
    pub br_pixel_x: i64,
    pub br_pixel_y: i64,
    pub tl_tile_x: i64,
    pub tl_tile_y: i64,
    pub br_tile_x: i64,
    pub br_tile_y: i64,
    pub img_w: u64,
    pub img_h: u64,
}

/// Absolute difference of two coordinates.
pub open spec fn abs_diff_spec(a: int, b: int) -> int {
    if a >= b {
        a - b
    } else {
        b - a
    }
}

/// The index of the tile that contains pixel coordinate `p`: floor division
/// by the tile size.
pub open spec fn tile_of(p: int, tile_size: int) -> int
    recommends
        tile_size > 0,
{
    p / tile_size
}

/// Whether a grid is the one resolved from the given corners and tile size.
pub open spec fn grid_resolved_from(g: TileGrid, tl: PixelPoint, br: PixelPoint, tile_size: u32) -> bool {
    &&& g.tl_pixel_x == tl.x
    &&& g.tl_pixel_y == tl.y
    &&& g.br_pixel_x == br.x
    &&& g.br_pixel_y == br.y
    &&& g.tl_tile_x == tile_of(tl.x as int, tile_size as int)
    &&& g.tl_tile_y == tile_of(tl.y as int, tile_size as int)
    &&& g.br_tile_x == tile_of(br.x as int, tile_size as int)
    &&& g.br_tile_y == tile_of(br.y as int, tile_size as int)
    &&& g.img_w == abs_diff_spec(br.x as int, tl.x as int)
    &&& g.img_h == abs_diff_spec(br.y as int, tl.y as int)
}

/// Absolute difference of two pixel coordinates, exact for the whole `i64`
/// range.
fn abs_diff_i64(a: i64, b: i64) -> (r: u64)
    ensures
        r == abs_diff_spec(a as int, b as int),
{
    if a >= b {
        (a as i128 - b as i128) as u64
    } else {
        (b as i128 - a as i128) as u64
    }
}

/// The index of the tile containing pixel coordinate `p`: floor division,
/// exact also for negative coordinates.
fn tile_index(p: i64, tile_size: u32) -> (r: i64)
    requires
        tile_size > 0,
    ensures
        r == tile_of(p as int, tile_size as int),
{
    let ts = tile_size as u64;
    if p >= 0 {
        ((p as u64) / ts) as i64
    } else {
        let n = (-(p + 1)) as u64;
        let q = n / ts;
        proof {
            lemma_fundamental_div_mod(n as int, ts as int);
            let rem = n as int % ts as int;
            assert(p as int == (-(q as int) - 1) * (ts as int) + (ts as int - rem - 1))
                by (nonlinear_arith)
                requires
                    n as int == q as int * ts as int + rem,
                    p as int == -(n as int) - 1,
            ;
            lemma_fundamental_div_mod_converse(
                p as int,
                ts as int,
                -(q as int) - 1,
                ts as int - rem - 1,
            );
        }
        -(q as i64) - 1
    }
}

/// Resolves the tile grid covering the box between the two projected
/// corners: keeps the pixel corners, derives each corner's tile index, and
/// takes the raster dimensions as the absolute pixel deltas. Either corner
/// ordering is tolerated for the dimensions; tile iteration still runs from
/// the top-left index to the bottom-right index, so corners given in the
/// unexpected order select the wrong tile set. The caller is responsible
/// for supplying the corners north-west first.
pub fn resolve_grid(tl: PixelPoint, br: PixelPoint, tile_size: u32) -> (g: TileGrid)
    requires
        tile_size > 0,
    ensures
        grid_resolved_from(g, tl, br, tile_size),
{
    TileGrid {
        tl_pixel_x: tl.x,
        tl_pixel_y: tl.y,
        br_pixel_x: br.x,
        br_pixel_y: br.y,
        tl_tile_x: tile_index(tl.x, tile_size),
        tl_tile_y: tile_index(tl.y, tile_size),
        br_tile_x: tile_index(br.x, tile_size),
        br_tile_y: tile_index(br.y, tile_size),
        img_w: abs_diff_i64(br.x, tl.x),
        img_h: abs_diff_i64(br.y, tl.y),
    }
}

/// A bounding box collapsed to a single point resolves to exactly one tile
/// index on each axis and a zero-size raster.
pub proof fn lemma_point_box_single_tile(g: TileGrid, p: PixelPoint, tile_size: u32)
    requires
        tile_size > 0,
        grid_resolved_from(g, p, p, tile_size),
    ensures
        g.tl_tile_x == g.br_tile_x,
        g.tl_tile_y == g.br_tile_y,
        g.img_w == 0,
        g.img_h == 0,
{
}

/// A bounding box spanning exactly one tile, boundary to boundary, resolves
/// to pixel dimensions equal to the tile size on each axis.
pub proof fn lemma_single_tile_span(g: TileGrid, tl: PixelPoint, br: PixelPoint, tile_size: u32)
    requires
        tile_size > 0,
        grid_resolved_from(g, tl, br, tile_size),
        br.x == tl.x + tile_size,
        br.y == tl.y + tile_size,
    ensures
        g.img_w == tile_size,
        g.img_h == tile_size,
{
}

impl TileGrid {
    /// How many tiles the inclusive tile rectangle holds: the per-axis index
    /// ranges multiplied out, zero when an axis is reversed, saturated at
    /// `u64::MAX` when the product does not fit.
    pub fn tile_count(&self) -> (n: u64)
        ensures
            ({
                let nx = self.br_tile_x - self.tl_tile_x + 1;
                let ny = self.br_tile_y - self.tl_tile_y + 1;
                if nx <= 0 || ny <= 0 {
                    n == 0
                } else if nx * ny > u64::MAX {
                    n == u64::MAX
                } else {
                    n == nx * ny
                }
            }),
    {
        let nx = self.br_tile_x as i128 - self.tl_tile_x as i128 + 1;
        let ny = self.br_tile_y as i128 - self.tl_tile_y as i128 + 1;
        if nx <= 0 || ny <= 0 {
            return 0;
        }
        let cap = u64::MAX as i128;
        if nx > cap || ny > cap {
            proof {
                assert(nx * ny > u64::MAX) by (nonlinear_arith)
                    requires
                        nx >= 1,
                        ny >= 1,
                        nx > u64::MAX || ny > u64::MAX,
                ;
            }
            return u64::MAX;
        }
        proof {
            assert(nx as int * ny as int <= u128::MAX as int) by (nonlinear_arith)
                requires
                    1 <= nx <= u64::MAX,
                    1 <= ny <= u64::MAX,
            ;
        }
        let prod = (nx as u128) * (ny as u128);
        if prod > u64::MAX as u128 {
            u64::MAX
        } else {
            prod as u64
        }
    }

    /// Every tile index of the inclusive rectangle, top-left to bottom-right,
    /// rows first: entry `k` is tile
    /// `(tl_tile_x + k % nx, tl_tile_y + k / nx)` where `nx` is the number of
    /// tile columns. Empty when an axis is reversed.
    #[verifier::loop_isolation(false)]
    pub fn tile_indices(&self) -> (v: Vec<(i64, i64)>)
        requires
            self.br_tile_x < self.tl_tile_x || self.br_tile_y < self.tl_tile_y || (self.br_tile_x
                - self.tl_tile_x + 1) * (self.br_tile_y - self.tl_tile_y + 1) <= usize::MAX,
        ensures
            ({
                let nx = self.br_tile_x - self.tl_tile_x + 1;
                let ny = self.br_tile_y - self.tl_tile_y + 1;
                if nx <= 0 || ny <= 0 {
                    v@.len() == 0
                } else {
                    &&& v@.len() == nx * ny
                    &&& forall|k: int|
                        0 <= k < v@.len() ==> v@[k].0 == self.tl_tile_x + k % nx && v@[k].1
                            == self.tl_tile_y + k / nx
                }
            }),
    {
        if self.br_tile_x < self.tl_tile_x || self.br_tile_y < self.tl_tile_y {
            let v: Vec<(i64, i64)> = Vec::new();
            return v;
        }
        let ghost nxg = self.br_tile_x as int - self.tl_tile_x as int + 1;
        let ghost nyg = self.br_tile_y as int - self.tl_tile_y as int + 1;
        proof {
            assert(nxg <= nxg * nyg && nyg <= nxg * nyg) by (nonlinear_arith)
                requires
                    nxg >= 1,
                    nyg >= 1,
            ;
        }
        let nx = (self.br_tile_x as i128 - self.tl_tile_x as i128 + 1) as u64;
        let ny = (self.br_tile_y as i128 - self.tl_tile_y as i128 + 1) as u64;
        let mut v: Vec<(i64, i64)> = Vec::new();
        let mut y: u64 = 0;
        while y < ny
            invariant
                y <= ny,
                v@.len() == y * nxg,
                forall|k: int|
                    0 <= k < v@.len() ==> v@[k].0 == self.tl_tile_x + k % nxg && v@[k].1
                        == self.tl_tile_y + k / nxg,
            decreases ny - y,
        {
            let mut x: u64 = 0;
            while x < nx
                invariant
                    y < ny,
                    x <= nx,
                    v@.len() == y * nxg + x,
                    forall|k: int|
                        0 <= k < v@.len() ==> v@[k].0 == self.tl_tile_x + k % nxg && v@[k].1
                            == self.tl_tile_y + k / nxg,
                decreases nx - x,
            {
                proof {
                    assert(y * nxg + x + 1 <= nyg * nxg) by (nonlinear_arith)
                        requires
                            0 <= y < nyg,
                            0 <= x < nxg,
                    ;
                }
                let cx = (self.tl_tile_x as i128 + x as i128) as i64;
                let cy = (self.tl_tile_y as i128 + y as i128) as i64;
                v.push((cx, cy));
                proof {
                    lemma_fundamental_div_mod_converse(
                        y as int * nxg + x,
                        nxg,
                        y as int,
                        x as int,
                    );
                }
                x = x + 1;
            }
            proof {
                assert((y + 1) * nxg == y * nxg + nxg) by (nonlinear_arith);
            }
            y = y + 1;
        }
        proof {
            assert(ny as int * nxg == nxg * nyg) by (nonlinear_arith)
                requires
                    ny == nyg,
        ;
        }
        v
    }
}

} // verus!
