//! Orientation-baked thumbnails and loupe previews: decoding a source's bytes
//! (with the embedded-preview fast paths), fitting the image inside the
//! requested box and baking its EXIF orientation into the pixels. Reading the
//! source and writing the cached JPEG are the caller's part.
use vstd::prelude::*;

use crate::jpeg::{
    earliest_longest, embedded_thumbnail_jpeg, first_stream_from, icc_from_jpeg, icc_profile_of,
    largest_embedded_jpeg, lemma_icc_roundtrip, splice_icc, spliced_with_icc, streams_from,
    ICC_CHUNK,
};
use crate::media::Kind;

verus! {

#[verifier::external_type_specification]
#[verifier::external_body]
pub struct ExDynamicImage(image::DynamicImage);

/// What `DynamicImage::width` gives for an image.
pub uninterp spec fn width_of(img: image::DynamicImage) -> u32;

/// What `DynamicImage::height` gives for an image.
pub uninterp spec fn height_of(img: image::DynamicImage) -> u32;

/// What `DynamicImage::fliph` gives for an image (mirrored left to right).
pub uninterp spec fn mirrored_of(img: image::DynamicImage) -> image::DynamicImage;

/// What `DynamicImage::flipv` gives for an image (flipped top to bottom).
pub uninterp spec fn flipped_of(img: image::DynamicImage) -> image::DynamicImage;

/// What `DynamicImage::rotate90` gives for an image (a quarter turn clockwise).
pub uninterp spec fn turned_cw_of(img: image::DynamicImage) -> image::DynamicImage;

/// What `DynamicImage::rotate180` gives for an image (a half turn).
pub uninterp spec fn turned_half_of(img: image::DynamicImage) -> image::DynamicImage;

/// What `DynamicImage::rotate270` gives for an image (a quarter turn
/// counter-clockwise).
pub uninterp spec fn turned_ccw_of(img: image::DynamicImage) -> image::DynamicImage;

/// What `DynamicImage::thumbnail(nw, nh)` gives for an image.
pub uninterp spec fn thumbnail_of(img: image::DynamicImage, nw: u32, nh: u32) -> image::DynamicImage;

/// What `DynamicImage::to_rgb8` gives for an image, as a `DynamicImage`.
pub uninterp spec fn rgb8_of(img: image::DynamicImage) -> image::DynamicImage;

/// What `DynamicImage::write_to` writes for an image as JPEG.
pub uninterp spec fn jpeg_of(img: image::DynamicImage) -> Seq<u8>;

/// What `image::load_from_memory` decodes from bytes (`None`: an error).
pub uninterp spec fn image_from_bytes(b: Seq<u8>) -> Option<image::DynamicImage>;

/// A decoded image. Only the functions of this module build one.
pub struct Picture {
    img: image::DynamicImage,
}

impl Picture {
    /// The decoded image held.
    pub closed spec fn image(&self) -> image::DynamicImage {
        self.img
    }

    /// Width in pixels.
    pub open spec fn pw(&self) -> u32 {
        width_of(self.image())
    }

    /// Height in pixels.
    pub open spec fn ph(&self) -> u32 {
        height_of(self.image())
    }

    pub fn width(&self) -> (w: u32)
        ensures
            w == self.pw(),
    {
        image_width(&self.img)
    }

    pub fn height(&self) -> (h: u32)
        ensures
            h == self.ph(),
    {
        image_height(&self.img)
    }

    /// The image itself (for encoding and saving).
    pub fn into_image(self) -> (r: image::DynamicImage)
        ensures
            r == self.image(),
    {
        self.img
    }
}

pub open spec fn opt_bytes(o: Option<Vec<u8>>) -> Option<Seq<u8>> {
    match o {
        Some(v) => Some(v@),
        None => None,
    }
}

/// Longer side of a picture.
pub open spec fn long_edge(w: u32, h: u32) -> u32 {
    if w >= h {
        w
    } else {
        h
    }
}

/// `image::load_from_memory`: decode an image of any supported format.
///
/// Trusted: the decode is named `image_from_bytes` of the bytes (the format
/// is guessed from the bytes and decoded, a function of them alone); an
/// error exactly when the name is `None`.
#[verifier::external_body]
fn decode_image_bytes(bytes: &[u8]) -> (r: Result<Picture, String>)
    ensures
        r is Ok <==> image_from_bytes(bytes@) is Some,
        r matches Ok(p) ==> image_from_bytes(bytes@) == Some(p.image()),
{
    match image::load_from_memory(bytes) {
        Ok(img) => Ok(Picture { img }),
        Err(e) => Err(e.to_string()),
    }
}

/// `DynamicImage::width`. Trusted: named `width_of`.
#[verifier::external_body]
fn image_width(img: &image::DynamicImage) -> (w: u32)
    ensures
        w == width_of(*img),
{
    img.width()
}

/// `DynamicImage::height`. Trusted: named `height_of`.
#[verifier::external_body]
fn image_height(img: &image::DynamicImage) -> (h: u32)
    ensures
        h == height_of(*img),
{
    img.height()
}

/// A picture of an image decoded elsewhere (a file opened by path).
pub fn picture_of(img: image::DynamicImage) -> (p: Picture)
    ensures
        p.image() == img,
{
    Picture { img }
}

/// `DynamicImage::fliph`. Trusted: named `mirrored_of`; a mirror image
/// keeps its size.
#[verifier::external_body]
fn fliph(p: &Picture) -> (r: Picture)
    ensures
        r.image() == mirrored_of(p.image()),
        r.pw() == p.pw() && r.ph() == p.ph(),
{
    Picture { img: p.img.fliph() }
}

/// `DynamicImage::flipv`. Trusted: named `flipped_of`; a flipped image
/// keeps its size.
#[verifier::external_body]
fn flipv(p: &Picture) -> (r: Picture)
    ensures
        r.image() == flipped_of(p.image()),
        r.pw() == p.pw() && r.ph() == p.ph(),
{
    Picture { img: p.img.flipv() }
}

/// `DynamicImage::rotate90` (clockwise). Trusted: named `turned_cw_of`;
/// width and height swap (the source builds the output buffer with
/// dimensions `(height, width)`).
#[verifier::external_body]
fn rotate90(p: &Picture) -> (r: Picture)
    ensures
        r.image() == turned_cw_of(p.image()),
        r.pw() == p.ph() && r.ph() == p.pw(),
{
    Picture { img: p.img.rotate90() }
}

/// `DynamicImage::rotate180`. Trusted: named `turned_half_of`; the size is
/// kept.
#[verifier::external_body]
fn rotate180(p: &Picture) -> (r: Picture)
    ensures
        r.image() == turned_half_of(p.image()),
        r.pw() == p.pw() && r.ph() == p.ph(),
{
    Picture { img: p.img.rotate180() }
}

/// `DynamicImage::rotate270` (clockwise). Trusted: named `turned_ccw_of`;
/// width and height swap.
#[verifier::external_body]
fn rotate270(p: &Picture) -> (r: Picture)
    ensures
        r.image() == turned_ccw_of(p.image()),
        r.pw() == p.ph() && r.ph() == p.pw(),
{
    Picture { img: p.img.rotate270() }
}

/// `DynamicImage::thumbnail(nw, nh)`: scale (keeping the aspect ratio) to the
/// largest size that fits within `nw` x `nh`.
///
/// Trusted, as the documentation and source show: the result is named
/// `thumbnail_of`; each side is at least one pixel (`resize_dimensions`
/// takes the larger of the rounded size and 1); for a non-empty box the
/// result fits within it, and for a non-empty image it is the largest that
/// fits, so one side reaches the box (the scale factor is the smaller of
/// `nw / width` and `nh / height`, and that side rounds back to its bound).
/// The other side (float rounding) is left unsaid.
#[verifier::external_body]
fn thumbnail(p: &Picture, nw: u32, nh: u32) -> (r: Picture)
    ensures
        r.image() == thumbnail_of(p.image(), nw, nh),
        r.pw() >= 1 && r.ph() >= 1,
        nw >= 1 && nh >= 1 ==> r.pw() <= nw && r.ph() <= nh,
        nw >= 1 && nh >= 1 && p.pw() >= 1 && p.ph() >= 1 ==> r.pw() == nw || r.ph() == nh,
{
    Picture { img: p.img.thumbnail(nw, nh) }
}

/// `DynamicImage::to_rgb8`, wrapped back as `DynamicImage::ImageRgb8`:
/// flatten to 8-bit RGB (JPEG has no alpha). Trusted: named `rgb8_of`; the
/// size is kept.
#[verifier::external_body]
fn to_rgb(p: &Picture) -> (r: Picture)
    ensures
        r.image() == rgb8_of(p.image()),
        r.pw() == p.pw() && r.ph() == p.ph(),
{
    Picture { img: image::DynamicImage::ImageRgb8(p.img.to_rgb8()) }
}

/// What `RgbImage::from_raw(w, h, pixels)` builds, as a `DynamicImage`.
pub uninterp spec fn rgb_image_of(w: u32, h: u32, pixels: Seq<u8>) -> image::DynamicImage;

/// What `GrayImage::from_raw(w, h, pixels)` builds, as a `DynamicImage`.
pub uninterp spec fn gray_image_of(w: u32, h: u32, pixels: Seq<u8>) -> image::DynamicImage;

/// `RgbImage::from_raw` wrapped as `DynamicImage::ImageRgb8`. Trusted: `Some`
/// exactly when `3 * w` and then `3 * w * h` are computed without overflow
/// and the buffer holds at least `3 * w * h` bytes, and then the picture is
/// `w` x `h`, named `rgb_image_of` of the arguments.
#[verifier::external_body]
fn rgb_from_raw(w: u32, h: u32, pixels: Vec<u8>) -> (r: Option<Picture>)
    ensures
        match r {
            Some(p) => p.pw() == w && p.ph() == h && rgb_fits(w, h, pixels@.len()) && p.image()
                == rgb_image_of(w, h, pixels@),
            None => !rgb_fits(w, h, pixels@.len()),
        },
{
    image::RgbImage::from_raw(w, h, pixels).map(|b| Picture { img: image::DynamicImage::ImageRgb8(b) })
}

/// `GrayImage::from_raw` wrapped as `DynamicImage::ImageLuma8`. Trusted:
/// `Some` exactly when `w * h` is computed without overflow and the buffer
/// holds at least that many bytes, and then the picture is `w` x `h`, named
/// `gray_image_of` of the arguments.
#[verifier::external_body]
fn gray_from_raw(w: u32, h: u32, pixels: Vec<u8>) -> (r: Option<Picture>)
    ensures
        match r {
            Some(p) => p.pw() == w && p.ph() == h && gray_fits(w, h, pixels@.len()) && p.image()
                == gray_image_of(w, h, pixels@),
            None => !gray_fits(w, h, pixels@.len()),
        },
{
    image::GrayImage::from_raw(w, h, pixels).map(|b| Picture { img: image::DynamicImage::ImageLuma8(b) })
}

/// Pixel layouts the JPEG decoder reports.
#[derive(Clone, Copy, PartialEq, Eq, Debug)]
pub enum JpegPixels {
    L8,
    L16,
    Rgb24,
    Cmyk32,
}

/// What jpeg-decoder gives for `bytes` asked to scale to cover `w` x `h`:
/// the output width and height, the pixel layout and the pixels (`None`:
/// the decoder refused the bytes).
pub uninterp spec fn scaled_decode_of(bytes: Seq<u8>, w: u16, h: u16) -> Option<(u16, u16, JpegPixels, Seq<u8>)>;

/// A DCT-scaled decode with jpeg-decoder: `Decoder::new` over the bytes,
/// `scale(w, h)` (the smallest of the 1/1, 1/2, 1/4, 1/8 scales that covers
/// the request), `decode`, then `info` for the output size and layout.
///
/// Trusted: the four calls are one decode of the bytes, whose result depends
/// on the bytes and the request alone; it is named `scaled_decode_of`. `info`
/// does not panic here: `decode` has already refused the precisions and
/// component counts it has no layout for.
#[verifier::external_body]
fn jpeg_scaled_decode(bytes: &[u8], w: u16, h: u16) -> (r: Option<(u16, u16, JpegPixels, Vec<u8>)>)
    ensures
        match r {
            Some((ow, oh, f, px)) => scaled_decode_of(bytes@, w, h) == Some((ow, oh, f, px@)),
            None => scaled_decode_of(bytes@, w, h) is None,
        },
{
    let mut dec = jpeg_decoder::Decoder::new(std::io::Cursor::new(bytes));
    dec.scale(w, h).ok()?;
    let pixels = dec.decode().ok()?;
    let info = dec.info()?;
    let f = match info.pixel_format {
        jpeg_decoder::PixelFormat::L8 => JpegPixels::L8,
        jpeg_decoder::PixelFormat::L16 => JpegPixels::L16,
        jpeg_decoder::PixelFormat::RGB24 => JpegPixels::Rgb24,
        jpeg_decoder::PixelFormat::CMYK32 => JpegPixels::Cmyk32,
    };
    Some((info.width, info.height, f, pixels))
}

/// The buffer holds a whole `w` x `h` RGB image (the products computed
/// without overflow, in `from_raw`'s order).
pub open spec fn rgb_fits(w: u32, h: u32, n: nat) -> bool {
    3 * w <= usize::MAX && 3 * w * h <= usize::MAX && 3 * w * h <= n
}

/// The buffer holds a whole `w` x `h` grey image.
pub open spec fn gray_fits(w: u32, h: u32, n: nat) -> bool {
    w * h <= usize::MAX && w * h <= n
}

/// The picture the DCT-scaled decode of `bytes` gives for a `max` box (the
/// request is `max` cut to 16 bits, as the decoder takes it): the decoder's
/// 8-bit RGB or grey output as an image; `None` when the decoder refuses the
/// bytes, its layout has no fast path (16-bit grey, CMYK) or its buffer is
/// short.
pub open spec fn scaled_picture_of(bytes: Seq<u8>, max: u32) -> Option<image::DynamicImage> {
    match scaled_decode_of(bytes, max as u16, max as u16) {
        Some((w, h, f, px)) => match f {
            JpegPixels::Rgb24 => if rgb_fits(w as u32, h as u32, px.len()) {
                Some(rgb_image_of(w as u32, h as u32, px))
            } else {
                None
            },
            JpegPixels::L8 => if gray_fits(w as u32, h as u32, px.len()) {
                Some(gray_image_of(w as u32, h as u32, px))
            } else {
                None
            },
            _ => None,
        },
        None => None,
    }
}

/// DCT-scaled JPEG decode: ask the decoder for the smallest 1/1·1/2·1/4·1/8
/// scale that still covers `max`, so a 50MP phone JPEG targeted at a 320px
/// thumbnail does a fraction of the IDCT work. `None` for layouts with no
/// fast path (16-bit grey, CMYK) or on any decode hiccup, so the caller falls
/// back to the full decoder.
pub fn decode_jpeg_scaled(bytes: &[u8], max: u32) -> (r: Option<Picture>)
    ensures
        r is Some <==> scaled_picture_of(bytes@, max) is Some,
        r matches Some(p) ==> scaled_picture_of(bytes@, max) == Some(p.image()),
        r matches Some(p) ==> p.pw() <= 65535 && p.ph() <= 65535,
{
    let req = max as u16;
    let (w, h, format, pixels) = match jpeg_scaled_decode(bytes, req, req) {
        Some(d) => d,
        None => return None,
    };
    match format {
        JpegPixels::Rgb24 => rgb_from_raw(w as u32, h as u32, pixels),
        JpegPixels::L8 => gray_from_raw(w as u32, h as u32, pixels),
        _ => None,
    }
}

/// Whether an embedded thumbnail of long edge `long` is sharp enough for a
/// `max` box: it must fill at least 75% of the target edge.
pub open spec fn embedded_is_sharp(long: u32, max: u32) -> bool {
    long as int * 4 >= max as int * 3
}

/// The embedded thumbnail of a JPEG head for a `max` box: the first complete
/// JPEG stream after the main image's start, decoded, when it decodes and
/// is sharp enough.
pub open spec fn embedded_thumb_of(head: Seq<u8>, max: u32) -> Option<image::DynamicImage> {
    match first_stream_from(head, 2) {
        Some((s, e)) => match image_from_bytes(head.subrange(s, e)) {
            Some(i) => if embedded_is_sharp(long_edge(width_of(i), height_of(i)), max) {
                Some(i)
            } else {
                None
            },
            None => None,
        },
        None => None,
    }
}

/// Fast path for grid thumbnails: decode only the EXIF-embedded thumbnail
/// found in the first bytes of a JPEG (`head`), with the file's ICC profile
/// (its APP2 segments sit in the same head bytes). `None` when there is no
/// embedded thumbnail, it does not decode, or it is too small to look crisp
/// at `max`; the caller then decodes the whole file.
pub fn thumb_from_head(head: &[u8], max: u32) -> (r: Option<(Picture, Option<Vec<u8>>)>)
    ensures
        r is Some <==> embedded_thumb_of(head@, max) is Some,
        r matches Some((p, icc)) ==> embedded_thumb_of(head@, max) == Some(p.image())
            && carries_profile_of(icc, head@),
{
    let jpg = match embedded_thumbnail_jpeg(head) {
        Some(j) => j,
        None => return None,
    };
    let img = match decode_image_bytes(jpg) {
        Ok(i) => i,
        Err(_) => return None,
    };
    let w = img.width();
    let h = img.height();
    let long = if w >= h {
        w
    } else {
        h
    };
    if (long as u64) * 4 >= (max as u64) * 3 {
        let icc = icc_from_jpeg(head);
        Some((img, icc))
    } else {
        None
    }
}

/// The ICC profile a decode carries, against the bytes it was read from.
pub open spec fn carries_profile_of(icc: Option<Vec<u8>>, bytes: Seq<u8>) -> bool {
    match icc {
        Some(v) => icc_profile_of(bytes) == Some(v@),
        None => icc_profile_of(bytes) is None,
    }
}

/// The preview picture of JPEG bytes for a `max` box: the DCT-scaled decode
/// when it takes them, else the general decoder's image (`None` when
/// neither takes them).
pub open spec fn preview_of(bytes: Seq<u8>, max: u32) -> Option<image::DynamicImage> {
    match scaled_picture_of(bytes, max) {
        Some(i) => Some(i),
        None => image_from_bytes(bytes),
    }
}

/// RAW: pull the largest embedded JPEG preview rather than demosaic, decode it
/// DCT-scaled (else fully), and keep the preview's ICC profile.
pub fn decode_raw(data: &[u8], max: u32) -> (r: Result<(Picture, Option<Vec<u8>>), String>)
    ensures
        match earliest_longest(streams_from(data@, 0)) {
            None => r matches Err(e) && e@ == "no embedded JPEG preview found in RAW file"@,
            Some((s, e)) => {
                &&& r is Ok <==> preview_of(data@.subrange(s, e), max) is Some
                &&& r matches Ok((p, icc)) ==> preview_of(data@.subrange(s, e), max) == Some(
                    p.image(),
                ) && carries_profile_of(icc, data@.subrange(s, e))
            },
        },
{
    let jpg = match largest_embedded_jpeg(data) {
        Some(j) => j,
        None => return Err("no embedded JPEG preview found in RAW file".to_string()),
    };
    let icc = icc_from_jpeg(jpg);
    if let Some(img) = decode_jpeg_scaled(jpg, max) {
        return Ok((img, icc));
    }
    match decode_image_bytes(jpg) {
        Ok(img) => Ok((img, icc)),
        Err(e) => Err(e),
    }
}

/// A JPEG file's bytes: decoded DCT-scaled, else fully, with the file's ICC
/// profile; `None` when neither decoder takes them (the caller then opens the
/// file with the general decoder, without a profile).
pub fn decode_jpeg_file(bytes: &[u8], max: u32) -> (r: Option<(Picture, Option<Vec<u8>>)>)
    ensures
        r is Some <==> preview_of(bytes@, max) is Some,
        r matches Some((p, icc)) ==> preview_of(bytes@, max) == Some(p.image())
            && carries_profile_of(icc, bytes@),
{
    let icc = icc_from_jpeg(bytes);
    if let Some(img) = decode_jpeg_scaled(bytes, max) {
        return Some((img, icc));
    }
    match decode_image_bytes(bytes) {
        Ok(img) => Some((img, icc)),
        Err(_) => None,
    }
}

/// Whether the EXIF orientation turns the picture a quarter turn (5..=8).
pub open spec fn swaps_sides(o: u16) -> bool {
    5 <= o <= 8
}

/// The image with EXIF orientation `o` baked in.
pub open spec fn oriented(img: image::DynamicImage, o: u16) -> image::DynamicImage {
    if o == 2 {
        mirrored_of(img)
    } else if o == 3 {
        turned_half_of(img)
    } else if o == 4 {
        flipped_of(img)
    } else if o == 5 {
        mirrored_of(turned_cw_of(img))
    } else if o == 6 {
        turned_cw_of(img)
    } else if o == 7 {
        mirrored_of(turned_ccw_of(img))
    } else if o == 8 {
        turned_ccw_of(img)
    } else {
        img
    }
}

/// The thumbnail of `img` for a `max` box with orientation `o` baked in,
/// as 8-bit RGB: fitted first, then turned, then flattened.
pub open spec fn shaped_of(img: image::DynamicImage, max: u32, o: u16) -> image::DynamicImage {
    rgb8_of(oriented(thumbnail_of(img, max, max), o))
}

/// Law: each EXIF orientation is undone by its own transform, over every
/// image: 2 mirrors, 3 turns half way, 4 flips, 5 turns a quarter clockwise
/// then mirrors, 6 turns a quarter clockwise, 7 turns a quarter
/// counter-clockwise then mirrors, 8 turns a quarter counter-clockwise
/// (the opposite way to 6); any other value leaves the image as it is. The
/// turned orientations swap width and height, the others keep them.
pub proof fn lemma_orientation_transforms(img: image::DynamicImage, o: u16)
    ensures
        oriented(img, 2) == mirrored_of(img),
        oriented(img, 3) == turned_half_of(img),
        oriented(img, 4) == flipped_of(img),
        oriented(img, 5) == mirrored_of(turned_cw_of(img)),
        oriented(img, 6) == turned_cw_of(img),
        oriented(img, 7) == mirrored_of(turned_ccw_of(img)),
        oriented(img, 8) == turned_ccw_of(img),
        (o < 2 || o > 8) ==> oriented(img, o) == img,
{
}

/// Bake the EXIF orientation into the pixels so the output is always upright:
/// 2 mirror, 3 half turn, 4 flip, 5 quarter turn clockwise then mirror,
/// 6 quarter turn clockwise, 7 three quarters then mirror, 8 three quarters;
/// anything else leaves the picture as it is.
pub fn apply_orientation(img: Picture, o: u16) -> (r: Picture)
    ensures
        r.image() == oriented(img.image(), o),
        !(2 <= o <= 8) ==> r.image() == img.image(),
        swaps_sides(o) ==> r.pw() == img.ph() && r.ph() == img.pw(),
        !swaps_sides(o) ==> r.pw() == img.pw() && r.ph() == img.ph(),
{
    match o {
        2 => fliph(&img),
        3 => rotate180(&img),
        4 => flipv(&img),
        5 => fliph(&rotate90(&img)),
        6 => rotate90(&img),
        7 => fliph(&rotate270(&img)),
        8 => rotate270(&img),
        _ => img,
    }
}

/// Fit a decoded source inside a `max` x `max` box (keeping its aspect ratio),
/// then bake its orientation in and flatten it to RGB for JPEG encoding —
/// downscaling first, so the rotation works on the small image. Each side
/// is at least one pixel; for a non-empty source and box the long edge is
/// exactly `max`.
pub fn shape_thumbnail(img: Picture, max: u32, o: u16) -> (r: Picture)
    ensures
        r.image() == shaped_of(img.image(), max, o),
        r.pw() >= 1 && r.ph() >= 1,
        max >= 1 ==> r.pw() <= max && r.ph() <= max,
        max >= 1 ==> long_edge(r.pw(), r.ph()) <= max,
        max >= 1 && img.pw() >= 1 && img.ph() >= 1 ==> long_edge(r.pw(), r.ph()) == max,
{
    let small = thumbnail(&img, max, max);
    let upright = apply_orientation(small, o);
    to_rgb(&upright)
}

/// Whether a thumbnail request may take the embedded-thumbnail fast path:
/// grid sizes (up to 512px) of ordinary JPEG images.
pub fn use_embedded_fast_path(max: u32, kind: Kind, is_jpeg_ext: bool) -> (b: bool)
    ensures
        b == (max <= 512 && kind == Kind::Image && is_jpeg_ext),
{
    max <= 512 && kind == Kind::Image && is_jpeg_ext
}

/// `DynamicImage::write_to` with `ImageFormat::Jpeg`, into memory: the JPEG
/// encoding that saving to a `.jpg` path writes.
///
/// Trusted, as the source shows: the bytes are named `jpeg_of` of the image
/// (the encoding depends on the pixels alone); writing into memory cannot
/// fail, and the JPEG encoder refuses exactly the sizes outside 1..=65535 on
/// either side.
#[verifier::external_body]
fn encode_jpeg(p: &Picture) -> (r: Result<Vec<u8>, String>)
    ensures
        r is Ok <==> (1 <= p.pw() <= 65535 && 1 <= p.ph() <= 65535),
        r matches Ok(b) ==> b@ == jpeg_of(p.image()),
{
    let mut out = std::io::Cursor::new(Vec::new());
    match p.img.write_to(&mut out, image::ImageFormat::Jpeg) {
        Ok(()) => Ok(out.into_inner()),
        Err(e) => Err(e.to_string()),
    }
}

/// A JPEG with the source's ICC profile spliced back in, when there is one
/// and the JPEG is one the splicer understands (else left as it is).
pub open spec fn with_profile(jpeg: Seq<u8>, icc: Option<Seq<u8>>) -> Seq<u8> {
    match icc {
        Some(v) => match spliced_with_icc(jpeg, v) {
            Some(s) => s,
            None => jpeg,
        },
        None => jpeg,
    }
}

/// A non-empty profile of at most 255 chunks that was spliced into `jpeg`
/// reads back out of the result `b` unchanged.
pub open spec fn profile_survives(icc: Option<Seq<u8>>, jpeg: Seq<u8>, b: Seq<u8>) -> bool {
    match icc {
        Some(v) => (0 < v.len() <= 255 * ICC_CHUNK && spliced_with_icc(jpeg, v) is Some)
            ==> icc_profile_of(b) == Some(v),
        None => true,
    }
}

/// The cached thumbnail's bytes: the source fitted inside a `max` box with
/// its orientation baked in, encoded as JPEG, with the source's ICC profile
/// re-attached so wide-gamut colours render right. When the profile was
/// spliced in, it reads back out unchanged.
pub fn thumbnail_jpeg(img: Picture, icc: Option<Vec<u8>>, max: u32, o: u16) -> (r: Result<Vec<u8>, String>)
    ensures
        ({
            let shaped = shaped_of(img.image(), max, o);
            &&& r is Ok <==> (1 <= width_of(shaped) <= 65535 && 1 <= height_of(shaped) <= 65535)
            &&& 1 <= max <= 65535 ==> r is Ok
            &&& 1 <= width_of(shaped) && 1 <= height_of(shaped)
            &&& 1 <= max ==> long_edge(width_of(shaped), height_of(shaped)) <= max
            &&& 1 <= max && img.pw() >= 1 && img.ph() >= 1 ==> long_edge(
                width_of(shaped),
                height_of(shaped),
            ) == max
            &&& r matches Ok(b) ==> b@ == with_profile(jpeg_of(shaped), opt_bytes(icc))
                && profile_survives(opt_bytes(icc), jpeg_of(shaped), b@)
        }),
{
    let shaped = shape_thumbnail(img, max, o);
    let enc = match encode_jpeg(&shaped) {
        Ok(e) => e,
        Err(e) => return Err(e),
    };
    let out = match &icc {
        Some(v) => match splice_icc(enc.as_slice(), v.as_slice()) {
            Some(s) => s,
            None => enc.clone(),
        },
        None => enc.clone(),
    };
    proof {
        if let Some(v) = icc {
            if 0 < v@.len() <= 255 * ICC_CHUNK && spliced_with_icc(enc@, v@) is Some {
                lemma_icc_roundtrip(enc@, v@);
            }
        }
        assert(out@ == with_profile(enc@, opt_bytes(icc)));
    }
    Ok(out)
}

/// A thumbnail is made only for images and RAW: videos and unknown files
/// get a placeholder in the grid instead.
pub fn thumbnail_kind_ok(kind: Kind) -> (r: Result<(), String>)
    ensures
        (kind == Kind::Video || kind == Kind::Other) <==> r is Err,
        r matches Err(e) ==> e@ == "no thumbnail for this kind"@,
{
    match kind {
        Kind::Video | Kind::Other => Err("no thumbnail for this kind".to_string()),
        _ => Ok(()),
    }
}

/// The loupe shows a capped, orientation-baked preview for images and RAW;
/// videos (and anything else) are served as the original file.
pub fn loupe_uses_preview(kind: Kind) -> (b: bool)
    ensures
        b == (kind == Kind::Raw || kind == Kind::Image),
{
    match kind {
        Kind::Raw | Kind::Image => true,
        _ => false,
    }
}

/// HEIC/HEIF stills, which only the bundled ffmpeg decodes.
pub fn is_heic_ext(ext: &str) -> (b: bool)
    ensures
        b == (ext@ == "heic"@ || ext@ == "heif"@),
{
    let cs = crate::text::chars_of(ext);
    crate::media::eq_str(&cs, "heic") || crate::media::eq_str(&cs, "heif")
}

/// JPEG files by extension, which take the DCT-scaled decode.
pub fn is_jpeg_ext(ext: &str) -> (b: bool)
    ensures
        b == (ext@ == "jpg"@ || ext@ == "jpeg"@),
{
    let cs = crate::text::chars_of(ext);
    crate::media::eq_str(&cs, "jpg") || crate::media::eq_str(&cs, "jpeg")
}

/// How a thumbnail request is served.
#[derive(Debug, PartialEq, Eq, Clone, Copy)]
pub enum ThumbRoute {
    /// The keyed cache file already exists.
    Cached,
    /// HEIC/HEIF: the bundled ffmpeg decodes, rotates and scales it.
    Ffmpeg,
    /// Try the embedded EXIF thumbnail first, then the full decode.
    EmbeddedFirst,
    /// Decode the source in full (DCT-scaled where it can).
    Full,
}

/// The route of a thumbnail request at long edge `max` for a file of kind
/// `kind` and lower-cased extension `ext`, given whether its cache file
/// exists: the cache first, then ffmpeg for HEIC, then the embedded
/// thumbnail for grid-sized JPEGs, else a full decode.
pub fn thumb_route(out_exists: bool, ext: &str, max: u32, kind: Kind) -> (r: ThumbRoute)
    ensures
        r == (if out_exists {
            ThumbRoute::Cached
        } else if ext@ == "heic"@ || ext@ == "heif"@ {
            ThumbRoute::Ffmpeg
        } else if max <= 512 && kind == Kind::Image && (ext@ == "jpg"@ || ext@ == "jpeg"@) {
            ThumbRoute::EmbeddedFirst
        } else {
            ThumbRoute::Full
        }),
{
    if out_exists {
        ThumbRoute::Cached
    } else if is_heic_ext(ext) {
        ThumbRoute::Ffmpeg
    } else if use_embedded_fast_path(max, kind, is_jpeg_ext(ext)) {
        ThumbRoute::EmbeddedFirst
    } else {
        ThumbRoute::Full
    }
}

/// Where the source of a thumbnail is decoded from.
#[derive(Debug, PartialEq, Eq, Clone, Copy)]
pub enum SourceRoute {
    /// RAW: the whole file, for its largest embedded JPEG preview.
    RawPreview,
    /// A JPEG file: its bytes, DCT-scaled where the decoder can.
    JpegBytes,
    /// Anything else: the general decoder opens the file by path.
    ByPath,
}

/// The source route for a file of kind `kind` whose extension is or is not
/// a JPEG one (a JPEG whose bytes neither decoder takes also falls back to
/// the path).
pub fn source_route(kind: Kind, is_jpeg_ext: bool) -> (r: SourceRoute)
    ensures
        kind == Kind::Raw ==> r == SourceRoute::RawPreview,
        kind != Kind::Raw && is_jpeg_ext ==> r == SourceRoute::JpegBytes,
        kind != Kind::Raw && !is_jpeg_ext ==> r == SourceRoute::ByPath,
{
    match kind {
        Kind::Raw => SourceRoute::RawPreview,
        _ => if is_jpeg_ext {
            SourceRoute::JpegBytes
        } else {
            SourceRoute::ByPath
        },
    }
}

} // verus!
