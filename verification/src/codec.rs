//! Decoding fetched tile bytes.
//!
//! The bytes a tile server returns are an encoded image; the `image` crate
//! decodes them and converts the pixels to the requested channel depth.
//! Decoding is a pure function of the bytes, so its outcome is captured by
//! the uninterpreted functions below, and everything downstream is verified
//! for whatever image the decoder yields.

use crate::raster::Raster;
use vstd::prelude::*;

verus! {

/// A decoded image: its pixel dimensions and its raw channel-interleaved
/// bytes.
pub ghost struct DecodedTile {
    pub width: nat,
    pub height: nat,
    pub pixels: Seq<u8>,
}

/// What decoding a byte sequence and converting it to three-channel RGB
/// yields: `None` exactly when the bytes are not a decodable image.
pub uninterp spec fn rgb_decoding(bytes: Seq<u8>) -> Option<DecodedTile>;

/// What decoding a byte sequence and converting it to four-channel RGBA
/// yields: `None` exactly when the bytes are not a decodable image.
pub uninterp spec fn rgba_decoding(bytes: Seq<u8>) -> Option<DecodedTile>;

/// The decoding the requested channel count selects: three channels for a
/// count of exactly 3, four channels (alpha present) for any other count.
pub open spec fn decoding(bytes: Seq<u8>, rgb: bool) -> Option<DecodedTile> {
    if rgb {
        rgb_decoding(bytes)
    } else {
        rgba_decoding(bytes)
    }
}

/// Relies on `image::load_from_memory` and `DynamicImage::to_rgb8`: the
/// result depends on the bytes alone, and `ImageBuffer::into_raw` hands back
/// a row-major buffer of exactly `width * height * 3` bytes, as the buffer's
/// documented layout guarantees.
#[verifier::external_body]
fn decode_rgb(bytes: &Vec<u8>) -> (r: Option<Raster>)
    ensures
        match r {
            Some(t) => {
                &&& rgb_decoding(bytes@) == Some(
                    DecodedTile {
                        width: t.width as nat,
                        height: t.height as nat,
                        pixels: t.data@,
                    },
                )
                &&& t.channels == 3
                &&& t.wf()
            },
            None => rgb_decoding(bytes@) is None,
        },
{
    match image::load_from_memory(bytes.as_slice()) {
        Ok(img) => {
            let buf = img.to_rgb8();
            let (width, height) = (buf.width(), buf.height());
            Some(Raster { data: buf.into_raw(), width, height, channels: 3 })
        },
        Err(_) => None,
    }
}

/// Relies on `image::load_from_memory` and `DynamicImage::to_rgba8`: the
/// result depends on the bytes alone, and `ImageBuffer::into_raw` hands back
/// a row-major buffer of exactly `width * height * 4` bytes, as the buffer's
/// documented layout guarantees.
#[verifier::external_body]
fn decode_rgba(bytes: &Vec<u8>) -> (r: Option<Raster>)
    ensures
        match r {
            Some(t) => {
                &&& rgba_decoding(bytes@) == Some(
                    DecodedTile {
                        width: t.width as nat,
                        height: t.height as nat,
                        pixels: t.data@,
                    },
                )
                &&& t.channels == 4
                &&& t.wf()
            },
            None => rgba_decoding(bytes@) is None,
        },
{
    match image::load_from_memory(bytes.as_slice()) {
        Ok(img) => {
            let buf = img.to_rgba8();
            let (width, height) = (buf.width(), buf.height());
            Some(Raster { data: buf.into_raw(), width, height, channels: 4 })
        },
        Err(_) => None,
    }
}

/// Decodes one fetched tile to the requested channel depth: a channel count
/// of 3 selects RGB, any other count selects RGBA. Returns `None` exactly
/// when the bytes are not a decodable image; the failure is the caller's to
/// swallow.
pub fn decode_tile(bytes: &Vec<u8>, channels: u8) -> (r: Option<Raster>)
    ensures
        match r {
            Some(t) => {
                &&& t.wf()
                &&& t.channels == (if channels == 3 {
                    3u8
                } else {
                    4u8
                })
                &&& decoding(bytes@, channels == 3) == Some(
                    DecodedTile {
                        width: t.width as nat,
                        height: t.height as nat,
                        pixels: t.data@,
                    },
                )
            },
            None => decoding(bytes@, channels == 3) is None,
        },
{
    if channels == 3 {
        decode_rgb(bytes)
    } else {
        decode_rgba(bytes)
    }
}

} // verus!
