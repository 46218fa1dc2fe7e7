//! The output raster and the tile compositor.
//!
//! A raster is a row-major, channel-interleaved byte buffer. Compositing
//! writes a decoded tile into the raster at the offset derived from the
//! tile's index and the raster's pixel origin: a tile whose offset is
//! negative on either axis is skipped entirely, and on the positive side the
//! copied extent is clamped so no write lands outside the buffer. Pixels are
//! overwritten channel for channel, with no blending.

use vstd::arithmetic::div_mod::{lemma_fundamental_div_mod, lemma_fundamental_div_mod_converse};
use vstd::prelude::*;

verus! {

/// An in-memory raster image: `data` holds `width * height * channels`
/// bytes, rows first, channels interleaved.
pub struct Raster {
    pub data: Vec<u8>,
    pub width: u32,
    pub height: u32,
    pub channels: u8,
}

/// Every byte of the buffer is zero: a fully transparent raster when it has
/// an alpha channel, black otherwise.
pub open spec fn all_zero(s: Seq<u8>) -> bool {
    forall|i: int| 0 <= i < s.len() ==> s[i] == 0
}

/// The pixel column addressed by byte index `i` of a raster `w` pixels wide
/// with `c` channels.
pub open spec fn byte_col(i: int, w: int, c: int) -> int {
    (i / c) % w
}

/// The pixel row addressed by byte index `i`.
pub open spec fn byte_row(i: int, w: int, c: int) -> int {
    (i / c) / w
}

/// The channel addressed by byte index `i`.
pub open spec fn byte_chan(i: int, c: int) -> int {
    i % c
}

/// Whether byte index `i` of the destination lies in the copied rectangle:
/// `copy_w` by `copy_h` pixels starting at pixel `(ox, oy)`.
pub open spec fn in_copy_region(
    i: int,
    dst_w: int,
    c: int,
    ox: int,
    oy: int,
    copy_w: int,
    copy_h: int,
) -> bool {
    &&& ox <= byte_col(i, dst_w, c) < ox + copy_w
    &&& oy <= byte_row(i, dst_w, c) < oy + copy_h
}

/// The source byte index that destination byte index `i` is copied from.
pub open spec fn copy_src_index(i: int, dst_w: int, c: int, src_w: int, ox: int, oy: int) -> int {
    ((byte_row(i, dst_w, c) - oy) * src_w + (byte_col(i, dst_w, c) - ox)) * c + byte_chan(i, c)
}

/// The value of destination byte `i` after the copy: the matching source
/// byte inside the copied rectangle, the old destination byte elsewhere.
pub open spec fn blit_byte(
    dst: Seq<u8>,
    src: Seq<u8>,
    dst_w: int,
    c: int,
    src_w: int,
    ox: int,
    oy: int,
    copy_w: int,
    copy_h: int,
    i: int,
) -> u8 {
    if in_copy_region(i, dst_w, c, ox, oy, copy_w, copy_h) {
        src[copy_src_index(i, dst_w, c, src_w, ox, oy)]
    } else {
        dst[i]
    }
}

/// The whole destination buffer after the copy.
pub open spec fn blit(
    dst: Seq<u8>,
    src: Seq<u8>,
    dst_w: int,
    c: int,
    src_w: int,
    ox: int,
    oy: int,
    copy_w: int,
    copy_h: int,
) -> Seq<u8> {
    Seq::new(dst.len(), |i: int| blit_byte(dst, src, dst_w, c, src_w, ox, oy, copy_w, copy_h, i))
}

/// The copied extent along one axis: the tile's extent, clamped to what
/// remains of the raster past the offset, never negative.
pub open spec fn copy_extent(tile_dim: int, img_dim: int, off: int) -> int {
    let avail = if img_dim - off >= 0 {
        img_dim - off
    } else {
        0
    };
    if tile_dim <= avail {
        tile_dim
    } else {
        avail
    }
}

impl Raster {
    /// Three or four channels, and a buffer of exactly
    /// `width * height * channels` bytes.
    pub open spec fn wf(&self) -> bool {
        &&& (self.channels == 3 || self.channels == 4)
        &&& self.data@.len() == self.width as int * self.height as int * self.channels as int
    }

    /// The buffer after compositing `tile` at tile index
    /// `(tile_x, tile_y)` into a raster whose top-left pixel is
    /// `(tl_pixel_x, tl_pixel_y)`: unchanged when the tile's offset is
    /// negative on either axis, otherwise the clamped rectangle is copied.
    pub open spec fn composited(
        self,
        tile: Raster,
        tile_x: int,
        tile_y: int,
        tile_size: int,
        tl_pixel_x: int,
        tl_pixel_y: int,
    ) -> Seq<u8> {
        let ox = tile_x * tile_size - tl_pixel_x;
        let oy = tile_y * tile_size - tl_pixel_y;
        if ox >= 0 && oy >= 0 {
            blit(
                self.data@,
                tile.data@,
                self.width as int,
                self.channels as int,
                tile.width as int,
                ox,
                oy,
                copy_extent(tile.width as int, self.width as int, ox),
                copy_extent(tile.height as int, self.height as int, oy),
            )
        } else {
            self.data@
        }
    }
}

/// Index arithmetic for one byte of a `w`-wide, `c`-channel raster: the byte
/// at `(y * w + x) * c + k` addresses column `x`, row `y`, channel `k`, and
/// lies below `(y + 1) * w * c`.
proof fn lemma_byte_index(w: int, c: int, x: int, y: int, k: int)
    requires
        0 < w,
        0 < c,
        0 <= x < w,
        0 <= y,
        0 <= k < c,
    ensures
        ({
            let i = (y * w + x) * c + k;
            &&& byte_col(i, w, c) == x
            &&& byte_row(i, w, c) == y
            &&& byte_chan(i, c) == k
            &&& 0 <= i
            &&& i + (w - x) * c - k <= (y + 1) * w * c
        }),
{
    let i = (y * w + x) * c + k;
    assert(0 <= y * w + x) by (nonlinear_arith)
        requires
            0 <= x,
            0 <= y,
            0 < w,
    ;
    lemma_fundamental_div_mod_converse(i, c, y * w + x, k);
    lemma_fundamental_div_mod_converse(y * w + x, w, y, x);
    assert(0 <= i && i + (w - x) * c - k <= (y + 1) * w * c) by (nonlinear_arith)
        requires
            i == (y * w + x) * c + k,
            0 < w,
            0 < c,
            0 <= x < w,
            0 <= y,
            0 <= k < c,
    ;
}

/// The converse: a byte index decomposes into its row, column and channel.
proof fn lemma_byte_index_converse(w: int, c: int, i: int)
    requires
        0 < w,
        0 < c,
        0 <= i,
    ensures
        i == (byte_row(i, w, c) * w + byte_col(i, w, c)) * c + byte_chan(i, c),
        0 <= byte_chan(i, c) < c,
        0 <= byte_col(i, w, c) < w,
        0 <= byte_row(i, w, c),
{
    lemma_fundamental_div_mod(i, c);
    lemma_fundamental_div_mod(i / c, w);
    let q = i / c;
    let r = i % c;
    let qq = q / w;
    let qr = q % w;
    assert(i == c * q + r);
    assert(q == w * qq + qr);
    assert(i == (qq * w + qr) * c + r) by (nonlinear_arith)
        requires
            i == c * q + r,
            q == w * qq + qr,
    ;
}

/// Bounds for one copied row: the row's byte segment of a `w` by `h` raster
/// with `c` channels stays inside the buffer, with every intermediate term
/// non-negative.
proof fn lemma_row_bounds(w: int, h: int, c: int, ox: int, oy: int, copy_w: int, y: int)
    requires
        0 < w,
        0 < c,
        0 <= ox,
        0 <= oy,
        0 <= copy_w,
        ox + copy_w <= w,
        0 <= y,
        oy + y < h,
    ensures
        0 <= (oy + y) * w,
        (oy + y) * w + ox <= w * h,
        0 <= copy_w * c <= w * h * c,
        ((oy + y) * w + ox) * c + copy_w * c <= w * h * c,
        w * h <= w * h * c,
{
    assert((oy + y) * w >= 0 && (oy + y) * w + ox <= w * h && copy_w * c >= 0 && copy_w * c <= w
        * h * c && ((oy + y) * w + ox) * c + copy_w * c <= w * h * c && w * h <= w * h * c)
        by (nonlinear_arith)
        requires
            0 < w,
            0 < c,
            0 <= ox,
            0 <= oy,
            0 <= copy_w,
            ox + copy_w <= w,
            0 <= y,
            oy + y < h,
    ;
}

/// Characterizes the byte segment of one copied row: byte index `i` lies in
/// the segment exactly when it addresses row `oy + y` and a column inside
/// the copied range, and its offset in the segment is then the offset of the
/// matching source byte within the source row.
proof fn lemma_row_segment(w: int, c: int, ox: int, oy: int, copy_w: int, y: int, i: int)
    requires
        0 < w,
        0 < c,
        0 <= ox,
        0 <= oy,
        0 <= copy_w,
        ox + copy_w <= w,
        0 <= y,
        0 <= i,
    ensures
        ({
            let start = ((oy + y) * w + ox) * c;
            &&& (start <= i < start + copy_w * c) <==> (byte_row(i, w, c) == oy + y && ox
                <= byte_col(i, w, c) < ox + copy_w)
            &&& (start <= i < start + copy_w * c) ==> i - start == (byte_col(i, w, c) - ox) * c
                + byte_chan(i, c)
        }),
{
    let start = ((oy + y) * w + ox) * c;
    if start <= i < start + copy_w * c {
        let j = i - start;
        lemma_fundamental_div_mod(j, c);
        let xq = j / c;
        let k = j % c;
        assert(0 <= xq < copy_w && i == ((oy + y) * w + (ox + xq)) * c + k) by (nonlinear_arith)
            requires
                j == c * xq + k,
                0 <= k < c,
                0 <= j < copy_w * c,
                i == ((oy + y) * w + ox) * c + j,
                0 < c,
        ;
        lemma_byte_index(w, c, ox + xq, oy + y, k);
        assert(i - start == (byte_col(i, w, c) - ox) * c + byte_chan(i, c)) by (nonlinear_arith)
            requires
                byte_col(i, w, c) == ox + xq,
                byte_chan(i, c) == k,
                i == start + j,
                j == c * xq + k,
        ;
    }
    if byte_row(i, w, c) == oy + y && ox <= byte_col(i, w, c) < ox + copy_w {
        lemma_byte_index_converse(w, c, i);
        assert(start <= i < start + copy_w * c) by (nonlinear_arith)
            requires
                i == (byte_row(i, w, c) * w + byte_col(i, w, c)) * c + byte_chan(i, c),
                start == ((oy + y) * w + ox) * c,
                byte_row(i, w, c) == oy + y,
                ox <= byte_col(i, w, c) < ox + copy_w,
                0 <= byte_chan(i, c) < c,
                0 < c,
        ;
    }
}

impl Raster {
    /// Allocates a zero-initialized raster: fully transparent when it has an
    /// alpha channel.
    pub fn new_zeroed(width: u32, height: u32, channels: u8) -> (r: Raster)
        requires
            channels == 3 || channels == 4,
            width as int * height as int * channels as int <= usize::MAX as int,
        ensures
            r.wf(),
            r.width == width,
            r.height == height,
            r.channels == channels,
            all_zero(r.data@),
    {
        proof {
            assert(width as int * height as int <= u64::MAX as int) by (nonlinear_arith)
                requires
                    width <= u32::MAX,
                    height <= u32::MAX,
            ;
        }
        let n64 = width as u64 * height as u64 * channels as u64;
        let n = n64 as usize;
        let mut data: Vec<u8> = Vec::new();
        let mut k: usize = 0;
        while k < n
            invariant
                data@.len() == k,
                k <= n,
                all_zero(data@),
            decreases n - k,
        {
            data.push(0u8);
            k += 1;
        }
        Raster { data, width, height, channels }
    }

    /// Writes `tile`'s pixels into this raster at the offset
    /// `(tile_x * tile_size - tl_pixel_x, tile_y * tile_size - tl_pixel_y)`.
    /// A tile whose offset is negative on either axis is skipped entirely;
    /// otherwise the copied extent is clamped to what remains of the raster,
    /// and each pixel is overwritten channel for channel.
    #[verifier::loop_isolation(false)]
    pub fn composite(
        &mut self,
        tile: &Raster,
        tile_x: i64,
        tile_y: i64,
        tile_size: u32,
        tl_pixel_x: i64,
        tl_pixel_y: i64,
    )
        requires
            old(self).wf(),
            tile.wf(),
            tile.channels == old(self).channels,
        ensures
            final(self).wf(),
            final(self).width == old(self).width,
            final(self).height == old(self).height,
            final(self).channels == old(self).channels,
            final(self).data@ == old(self).composited(
                *tile,
                tile_x as int,
                tile_y as int,
                tile_size as int,
                tl_pixel_x as int,
                tl_pixel_y as int,
            ),
    {
        let ghost oxg = tile_x as int * tile_size as int - tl_pixel_x as int;
        let ghost oyg = tile_y as int * tile_size as int - tl_pixel_y as int;
        let ghost iw = self.width as int;
        let ghost ih = self.height as int;
        let ghost cc = self.channels as int;
        let ghost tw = tile.width as int;
        let ghost th = tile.height as int;
        let ghost d0 = self.data@;
        proof {
            assert(-0x8000_0000_0000_0000 * 0x1_0000_0000 <= tile_x as int * tile_size as int
                <= 0x8000_0000_0000_0000 * 0x1_0000_0000 && -0x8000_0000_0000_0000
                * 0x1_0000_0000 <= tile_y as int * tile_size as int <= 0x8000_0000_0000_0000
                * 0x1_0000_0000) by (nonlinear_arith)
                requires
                    i64::MIN <= tile_x <= i64::MAX,
                    i64::MIN <= tile_y <= i64::MAX,
                    0 <= tile_size <= u32::MAX,
            ;
        }
        let ox128 = tile_x as i128 * tile_size as i128 - tl_pixel_x as i128;
        let oy128 = tile_y as i128 * tile_size as i128 - tl_pixel_y as i128;
        if ox128 < 0 || oy128 < 0 {
            return ;
        }
        let iw128 = self.width as i128;
        let ih128 = self.height as i128;
        let avail_w: u32 = if ox128 >= iw128 {
            0
        } else {
            (iw128 - ox128) as u32
        };
        let avail_h: u32 = if oy128 >= ih128 {
            0
        } else {
            (ih128 - oy128) as u32
        };
        let copy_w: u32 = if tile.width <= avail_w {
            tile.width
        } else {
            avail_w
        };
        let copy_h: u32 = if tile.height <= avail_h {
            tile.height
        } else {
            avail_h
        };
        let ghost cwg = copy_extent(tw, iw, oxg);
        let ghost chg = copy_extent(th, ih, oyg);
        assert(copy_w == cwg && copy_h == chg);
        if copy_w == 0 || copy_h == 0 {
            proof {
                assert(blit(d0, tile.data@, iw, cc, tw, oxg, oyg, cwg, chg) =~= d0);
            }
            return ;
        }
        let ox: u32 = ox128 as u32;
        let oy: u32 = oy128 as u32;
        let d_len: usize = self.data.len();
        let t_len: usize = tile.data.len();
        proof {
            assert(ox as int == oxg && oy as int == oyg);
            assert(iw * ih * cc == d_len as int);
            assert(tw * th * cc == t_len as int);
        }
        let mut y: u32 = 0;
        while y < copy_h
            invariant
                y <= copy_h,
                self.width == old(self).width,
                self.height == old(self).height,
                self.channels == old(self).channels,
                self.data@.len() == d0.len(),
                forall|i: int|
                    0 <= i < self.data@.len() ==> self.data@[i] == blit_byte(
                        d0,
                        tile.data@,
                        iw,
                        cc,
                        tw,
                        oxg,
                        oyg,
                        cwg,
                        y as int,
                        i,
                    ),
            decreases copy_h as int - y as int,
        {
            proof {
                lemma_row_bounds(iw, ih, cc, oxg, oyg, cwg, y as int);
                lemma_row_bounds(tw, th, cc, 0, 0, cwg, y as int);
                assert(iw * ih * cc <= u64::MAX as int && tw * th * cc <= u64::MAX as int);
            }
            let row_start: u64 = ((oy as u64 + y as u64) * (self.width as u64) + ox as u64) * (
            self.channels as u64);
            let src_row_start: u64 = ((y as u64) * (tile.width as u64)) * (self.channels as u64);
            let row_bytes: u64 = (copy_w as u64) * (self.channels as u64);
            let mut j: u64 = 0;
            while j < row_bytes
                invariant
                    y < copy_h,
                    j <= row_bytes,
                    self.width == old(self).width,
                    self.height == old(self).height,
                    self.channels == old(self).channels,
                    self.data@.len() == d0.len(),
                    forall|i: int|
                        0 <= i < self.data@.len() && !(row_start as int <= i < row_start as int
                            + j as int) ==> self.data@[i] == blit_byte(
                            d0,
                            tile.data@,
                            iw,
                            cc,
                            tw,
                            oxg,
                            oyg,
                            cwg,
                            y as int,
                            i,
                        ),
                    forall|i: int|
                        row_start as int <= i < row_start as int + j as int ==> self.data@[i]
                            == tile.data@[src_row_start as int + (i - row_start as int)],
                decreases row_bytes as int - j as int,
            {
                let di = (row_start + j) as usize;
                let si = (src_row_start + j) as usize;
                let b = tile.data[si];
                self.data.set(di, b);
                j = j + 1;
            }
            proof {
                let yn = y as int + 1;
                assert forall|i: int| 0 <= i < self.data@.len() implies self.data@[i] == blit_byte(
                    d0,
                    tile.data@,
                    iw,
                    cc,
                    tw,
                    oxg,
                    oyg,
                    cwg,
                    yn,
                    i,
                ) by {
                    lemma_row_segment(iw, cc, oxg, oyg, cwg, y as int, i);
                    let start = ((oyg + y) * iw + oxg) * cc;
                    if start <= i < start + cwg * cc {
                        let col = byte_col(i, iw, cc);
                        let k = byte_chan(i, cc);
                        assert(copy_src_index(i, iw, cc, tw, oxg, oyg) == (y as int) * tw * cc + (i
                            - start)) by (nonlinear_arith)
                            requires
                                copy_src_index(i, iw, cc, tw, oxg, oyg) == ((byte_row(i, iw, cc)
                                    - oyg) * tw + (col - oxg)) * cc + k,
                                byte_row(i, iw, cc) == oyg + y,
                                i - start == (col - oxg) * cc + k,
                        ;
                    }
                }
            }
            y = y + 1;
        }
        proof {
            assert(blit(d0, tile.data@, iw, cc, tw, oxg, oyg, cwg, chg) =~= self.data@);
        }
    }
}

/// Compositing never touches a byte outside the copied rectangle: every
/// other region of the raster keeps its original value.
pub proof fn lemma_composite_frame(
    img: Raster,
    tile: Raster,
    tile_x: int,
    tile_y: int,
    tile_size: int,
    tl_pixel_x: int,
    tl_pixel_y: int,
    i: int,
)
    requires
        0 <= i < img.data@.len(),
        !in_copy_region(
            i,
            img.width as int,
            img.channels as int,
            tile_x * tile_size - tl_pixel_x,
            tile_y * tile_size - tl_pixel_y,
            copy_extent(tile.width as int, img.width as int, tile_x * tile_size - tl_pixel_x),
            copy_extent(tile.height as int, img.height as int, tile_y * tile_size - tl_pixel_y),
        ),
    ensures
        img.composited(tile, tile_x, tile_y, tile_size, tl_pixel_x, tl_pixel_y)[i]
            == img.data@[i],
        img.composited(tile, tile_x, tile_y, tile_size, tl_pixel_x, tl_pixel_y).len()
            == img.data@.len(),
{
}

/// A tile whose computed origin is negative on either axis is skipped
/// entirely: the raster is left exactly as it was.
pub proof fn lemma_negative_origin_skips(
    img: Raster,
    tile: Raster,
    tile_x: int,
    tile_y: int,
    tile_size: int,
    tl_pixel_x: int,
    tl_pixel_y: int,
)
    requires
        tile_x * tile_size - tl_pixel_x < 0 || tile_y * tile_size - tl_pixel_y < 0,
    ensures
        img.composited(tile, tile_x, tile_y, tile_size, tl_pixel_x, tl_pixel_y) == img.data@,
{
}

} // verus!
