//! Covers as pixels.

use vstd::prelude::*;

use crate::library::picture::{decodable, is_decodable};
use crate::library::Cover;

verus! {

/// A decoded image: four bytes (red, green, blue, opacity) for each pixel, row
/// by row.
#[derive(Debug)]
pub struct Pixels {
    pub width: usize,
    pub height: usize,
    pub rgba: Vec<u8>,
}

impl Pixels {
    /// Whether there are four bytes for each pixel.
    pub open spec fn is_whole(&self) -> bool {
        self.rgba.len() == 4 * self.width * self.height
    }
}

/// The width, the height and the pixels of the image that these bytes hold, where
/// one can be decoded from them: what `image::load_from_memory` and
/// `DynamicImage::to_rgba8` give.
pub uninterp spec fn image_pixels(data: Seq<u8>) -> Option<(u32, u32, Seq<u8>)>;

/// `image::load_from_memory` decodes an image and `DynamicImage::to_rgba8` turns
/// it into four bytes for each pixel; nothing comes of what cannot be decoded.
/// Required is that the file can be handed to the decoders, which can panic on
/// others. Claimed is that the data alone decide whether there is an image, how
/// large it is and which pixels it has, and that the bytes are as many as width
/// and height ask for. No decoder is hooked in beside those of the crate. The JPEG
/// decoder's code for vector processors (`zune-jpeg`'s `idct`, `upsampler` and
/// `color_convert`) takes the steps of its plain code. The PNG decoder (`png`'s
/// `decoder::Reader`, `StreamingDecoder`, `filter::unfilter` and
/// `adam7::expand_pass`, with `fdeflate::Decompressor`) works on what it has read
/// and on nothing else, and its two ways to undo a Paeth filter give the same
/// bytes.
#[verifier::external_body]
fn decode_image(data: &Vec<u8>) -> (r: Option<(u32, u32, Vec<u8>)>)
    requires
        decodable(data@),
    ensures
        match r {
            Some((w, h, bytes)) => image_pixels(data@) == Some((w, h, bytes@)) && bytes.len() == 4 * w * h,
            None => image_pixels(data@) is None,
        },
{
    let rgba = image::load_from_memory(data).ok()?.to_rgba8();
    Some((rgba.width(), rgba.height(), rgba.into_raw()))
}

/// The pixels of an image of this size.
pub fn pixels(size: Option<(u32, u32, Vec<u8>)>) -> (r: Option<Pixels>)
    ensures
        match size {
            None => r is None,
            Some((w, h, bytes)) => r matches Some(p) && p.width == w && p.height == h && p.rgba@ == bytes@,
        },
{
    match size {
        Some((w, h, bytes)) => Some(Pixels { width: w as usize, height: h as usize, rgba: bytes }),
        None => None,
    }
}

/// The pixels of a cover, if it can be decoded. A file that cannot be handed to
/// the decoders is not.
pub fn load_cover(cover: &Cover) -> (r: Option<Pixels>)
    ensures
        if !decodable(cover.data@) {
            r is None
        } else {
            match image_pixels(cover.data@) {
                Some((w, h, rgba)) => r matches Some(p) && p.width == w && p.height == h && p.rgba@ == rgba && p.is_whole(),
                None => r is None,
            }
        },
{
    if !is_decodable(&cover.data) {
        return None;
    }
    pixels(decode_image(&cover.data))
}

} // verus!
