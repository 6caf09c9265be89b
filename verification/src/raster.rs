//! Images as rows of red, green and blue bytes, and what the image crate does
//! with them.

use crate::webp::{has_uneven_frame, uneven_frame};
use vstd::prelude::*;

verus! {

/// The longest side of an image that can be enlarged to any size. The image crate
/// places its samples in single precision, with an error of up to a 2^-23 part; on a
/// longer side that comes to half a pixel, and the last samples can fall beside the
/// image, where the crate panics.
pub const MAX_SAMPLED_SIDE: u32 = 4_194_303;

/// The greatest standard deviation of a blur, in pixels.
pub const MAX_SIGMA: u8 = 24;

/// An image of red, green and blue bytes, in rows from the top.
#[derive(Debug)]
pub struct RgbImage {
    width: u32,
    height: u32,
    data: Vec<u8>,
}

/// An `RgbImage` as values.
pub ghost struct Raster {
    pub width: int,
    pub height: int,
    pub data: Seq<u8>,
}

impl View for RgbImage {
    type V = Raster;

    closed spec fn view(&self) -> Raster {
        Raster { width: self.width as int, height: self.height as int, data: self.data@ }
    }
}

impl Raster {
    /// Where the bytes of the pixel in column `x` of row `y` begin.
    pub open spec fn at(self, x: int, y: int) -> int {
        3 * (y * self.width + x)
    }

    /// Red, green and blue of the pixel in column `x` of row `y`.
    pub open spec fn pixel(self, x: int, y: int) -> Seq<u8> {
        seq![
            self.data[self.at(x, y)],
            self.data[self.at(x, y) + 1],
            self.data[self.at(x, y) + 2],
        ]
    }

    /// Whether there is a pixel in column `x` of row `y`.
    pub open spec fn holds(self, x: int, y: int) -> bool {
        0 <= x < self.width && 0 <= y < self.height
    }

    /// Whether the image has that size.
    pub open spec fn sized(self, width: int, height: int) -> bool {
        self.width == width && self.height == height
    }
}

/// Whether the bytes of an image of that size fit into memory.
pub open spec fn storable(width: int, height: int) -> bool {
    3 * (width * height) <= isize::MAX
}

/// Whether an image of that size can be resampled to and blurred: it has a pixel,
/// and there is room for its channels as floating-point numbers, and for the rows
/// that a blur adds above and below.
pub open spec fn samplable(width: int, height: int) -> bool {
    &&& 0 < width
    &&& 0 < height
    &&& 16 * (width * height) <= isize::MAX
    &&& 1024 * width <= isize::MAX
}

/// Whether samples can be placed on an image of that size.
pub open spec fn sampled_from(width: int, height: int) -> bool {
    width <= MAX_SAMPLED_SIDE && height <= MAX_SAMPLED_SIDE
}

/// Whether a channel (0 for red, 1 for green, 2 for blue) stays between two values
/// throughout an image.
pub open spec fn channel_within(r: Raster, channel: int, low: u8, high: u8) -> bool {
    &&& 0 <= channel < 3
    &&& forall|x: int, y: int| r.holds(x, y) ==> low <= #[trigger] r.pixel(x, y)[channel] <= high
}

// ----- What the outside crate computes -----------------------------------------------------

/// `image::ImageBuffer::from_pixel`: an image that is the same pixel throughout.
#[verifier::external_body]
fn filled(width: u32, height: u32, color: [u8; 3]) -> (r: RgbImage)
    requires
        storable(width as int, height as int),
    ensures
        r@.sized(width as int, height as int),
        forall|x: int, y: int| r@.holds(x, y) ==> #[trigger] r@.pixel(x, y) == color@,
{
    let buffer = image::RgbImage::from_pixel(width, height, image::Rgb(color));
    RgbImage { width, height, data: buffer.into_raw() }
}

/// `image::imageops::overlay`: the pixels of `top`, moved by `x` and `y`, replace
/// those of `bottom` where the two overlap.
#[verifier::external_body]
fn overlay(bottom: RgbImage, top: &RgbImage, x: u32, y: u32) -> (r: RgbImage)
    ensures
        r@.sized(bottom@.width, bottom@.height),
        forall|px: int, py: int|
            r@.holds(px, py) ==> #[trigger] r@.pixel(px, py) == if top@.holds(px - x, py - y) {
                top@.pixel(px - x, py - y)
            } else {
                bottom@.pixel(px, py)
            },
{
    let (width, height) = (bottom.width, bottom.height);
    let mut under = image::RgbImage::from_raw(width, height, bottom.data).unwrap();
    let over = image::RgbImage::from_raw(top.width, top.height, top.data.clone()).unwrap();
    image::imageops::overlay(&mut under, &over, x.into(), y.into());
    RgbImage { width, height, data: under.into_raw() }
}

/// The bytes of an image of `width` by `height` that the image crate resamples
/// with its triangle filter to `new_width` by `new_height`.
pub uninterp spec fn resampled(
    data: Seq<u8>,
    width: int,
    height: int,
    new_width: int,
    new_height: int,
) -> Seq<u8>;

/// `image::imageops::resize` with `FilterType::Triangle`. Its arithmetic is IEEE
/// addition, multiplication and division alone, so the bytes are given by the
/// image and the size.
#[verifier::external_body]
fn enlarge(img: &RgbImage, width: u32, height: u32) -> (r: RgbImage)
    requires
        img@.width <= width,
        img@.height <= height,
        sampled_from(img@.width, img@.height),
        samplable(width as int, height as int),
    ensures
        r@.sized(width as int, height as int),
        r@.data == resampled(img@.data, img@.width, img@.height, width as int, height as int),
{
    let small = image::RgbImage::from_raw(img.width, img.height, img.data.clone()).unwrap();
    let filter = image::imageops::FilterType::Triangle;
    let large = image::imageops::resize(&small, width, height, filter);
    RgbImage { width, height, data: large.into_raw() }
}

/// Whether `soft` can be the bytes that the image crate makes of an image by a
/// Gaussian blur of that standard deviation, in pixels.
pub uninterp spec fn blurs_to(
    data: Seq<u8>,
    width: int,
    height: int,
    sigma: u8,
    soft: Seq<u8>,
) -> bool;

/// `image::imageops::blur`: a Gaussian blur of the given standard deviation, in
/// pixels. Each channel becomes a weighted mean over the pixels around, so it
/// stays between the least and the greatest value it has in the image; the size
/// stays too. Which mean it is rests on the platform's exponential function, and
/// on fused multiplication where the processor has it, so one image can have more
/// than one outcome.
#[verifier::external_body]
fn gaussian_blur(img: &RgbImage, sigma: u8) -> (r: RgbImage)
    requires
        samplable(img@.width, img@.height),
        0 < sigma <= MAX_SIGMA,
    ensures
        r@.sized(img@.width, img@.height),
        blurs_to(img@.data, img@.width, img@.height, sigma, r@.data),
        forall|channel: int, low: u8, high: u8| #[trigger]
            channel_within(img@, channel, low, high) ==> channel_within(r@, channel, low, high),
{
    let sharp = image::RgbImage::from_raw(img.width, img.height, img.data.clone()).unwrap();
    let soft = image::imageops::blur(&sharp, sigma.into());
    RgbImage { width: img.width, height: img.height, data: soft.into_raw() }
}

/// The width and height of the image in an encoded file; `None` where the image
/// crate cannot read the file.
pub uninterp spec fn decoded_size(bytes: Seq<u8>) -> Option<(u32, u32)>;

/// Whether the image crate can make that of an encoded file: the image's bytes, or
/// what is wrong with the file.
pub uninterp spec fn decodes_to(bytes: Seq<u8>, outcome: Result<Seq<u8>, Seq<char>>) -> bool;

/// `image::load_from_memory` with `DynamicImage::into_rgb8`: the image in an
/// encoded file, or what is wrong with the file. Whether the file can be read, and
/// the size, are given by its bytes. The decoders pick their code by the
/// processor's vector instructions, so one file can have more than one outcome in
/// pixels. Of an animated WebP the first frame is taken; where that has alpha and a
/// picture of another size, the WebP decoder panics, so such files are left out; that
/// the decoders return on all others is taken on trust.
#[verifier::external_body]
fn decoded(bytes: &[u8]) -> (r: Result<RgbImage, String>)
    requires
        !uneven_frame(bytes@),
    ensures
        match r {
            Ok(img) => decoded_size(bytes@) matches Some((width, height)) && img@.sized(
                width as int,
                height as int,
            ) && decodes_to(bytes@, Ok(img@.data)),
            Err(m) => decoded_size(bytes@) is None && decodes_to(bytes@, Err(m@)),
        },
{
    match image::load_from_memory(bytes) {
        Ok(img) => {
            let rgb = img.into_rgb8();
            Ok(RgbImage { width: rgb.width(), height: rgb.height(), data: rgb.into_raw() })
        },
        Err(e) => Err(e.to_string()),
    }
}

/// The size of the image in an encoded file; `None` where the file cannot be read.
pub open spec fn encoded_size(bytes: Seq<u8>) -> Option<(u32, u32)> {
    if uneven_frame(bytes) {
        None
    } else {
        decoded_size(bytes)
    }
}

/// Whether `photo` can be the image in an encoded file.
pub open spec fn encodes(bytes: Seq<u8>, photo: Raster) -> bool {
    &&& encoded_size(bytes) matches Some((width, height))
    &&& photo.sized(width as int, height as int)
    &&& decodes_to(bytes, Ok(photo.data))
}

/// Whether an encoded file cannot be read, and `complaint` can be what is wrong
/// with it.
pub open spec fn spoils(bytes: Seq<u8>, complaint: Seq<char>) -> bool {
    &&& encoded_size(bytes) is None
    &&& if uneven_frame(bytes) {
        complaint == "frame and picture differ in size"@
    } else {
        decodes_to(bytes, Err(complaint))
    }
}

// ----- Images --------------------------------------------------------------------------------

proof fn lemma_pixel_in_bounds(width: int, height: int, x: int, y: int)
    requires
        0 <= x < width,
        0 <= y < height,
    ensures
        0 <= 3 * (y * width + x),
        3 * (y * width + x) + 3 <= 3 * (width * height),
{
    assert(0 <= y * width) by (nonlinear_arith)
        requires
            0 <= y,
            0 < width,
    ;
    assert(y * width + x + 1 <= width * height) by (nonlinear_arith)
        requires
            0 <= x < width,
            0 <= y < height,
    ;
}

impl RgbImage {
    /// Three bytes per pixel.
    #[verifier::type_invariant]
    spec fn full(self) -> bool {
        self.data@.len() == 3 * (self.width * self.height)
    }

    /// An image that is the same colour throughout.
    pub fn from_pixel(width: u32, height: u32, color: [u8; 3]) -> (r: RgbImage)
        requires
            storable(width as int, height as int),
        ensures
            r@.sized(width as int, height as int),
            forall|x: int, y: int| r@.holds(x, y) ==> #[trigger] r@.pixel(x, y) == color@,
    {
        filled(width, height, color)
    }

    /// The image whose pixels, row by row from the top, have these bytes; `None`
    /// where their number does not fit the size.
    pub fn from_raw(width: u32, height: u32, data: Vec<u8>) -> (r: Option<RgbImage>)
        ensures
            r is Some <==> data@.len() == 3 * (width * height),
            r matches Some(img) ==> img@ == (Raster {
                width: width as int,
                height: height as int,
                data: data@,
            }),
    {
        assert(0 <= width * height <= 0xffff_ffff * 0xffff_ffff) by (nonlinear_arith)
            requires
                0 <= width <= 0xffff_ffff,
                0 <= height <= 0xffff_ffff,
        ;
        let bytes: u128 = 3 * (width as u128 * height as u128);
        if data.len() as u128 == bytes {
            Some(RgbImage { width, height, data })
        } else {
            None
        }
    }

    /// The image in an encoded file, or what is wrong with the file.
    pub fn decode(bytes: &[u8]) -> (r: Result<RgbImage, String>)
        ensures
            match r {
                Ok(img) => encodes(bytes@, img@),
                Err(m) => spoils(bytes@, m@),
            },
    {
        if has_uneven_frame(bytes) {
            return Err("frame and picture differ in size".to_owned());
        }
        decoded(bytes)
    }

    /// How many columns there are.
    pub fn width(&self) -> (r: u32)
        ensures
            r == self@.width,
    {
        self.width
    }

    /// How many rows there are.
    pub fn height(&self) -> (r: u32)
        ensures
            r == self@.height,
    {
        self.height
    }

    /// The bytes, row by row from the top.
    pub fn as_raw(&self) -> (r: &[u8])
        ensures
            r@ == self@.data,
    {
        self.data.as_slice()
    }

    /// Red, green and blue of the pixel in column `x` of row `y`.
    pub fn get_pixel(&self, x: u32, y: u32) -> (r: [u8; 3])
        requires
            self@.holds(x as int, y as int),
        ensures
            r@ == self@.pixel(x as int, y as int),
    {
        proof {
            use_type_invariant(self);
            lemma_pixel_in_bounds(self.width as int, self.height as int, x as int, y as int);
            assert(0 <= y * self.width) by (nonlinear_arith)
                requires
                    0 <= y,
                    0 <= self.width,
            ;
        }
        let bytes: usize = self.data.len();
        assert(3 * (y * self.width + x) + 3 <= bytes);
        let at: usize = 3 * (y as usize * self.width as usize + x as usize);
        let p: [u8; 3] = [self.data[at], self.data[at + 1], self.data[at + 2]];
        assert(p@ == self@.pixel(x as int, y as int));
        p
    }

    /// This image with `top` over it, moved by `x` and `y`.
    pub fn overlaid(self, top: &RgbImage, x: u32, y: u32) -> (r: RgbImage)
        ensures
            r@.sized(self@.width, self@.height),
            forall|px: int, py: int|
                r@.holds(px, py) ==> #[trigger] r@.pixel(px, py) == if top@.holds(px - x, py - y) {
                    top@.pixel(px - x, py - y)
                } else {
                    self@.pixel(px, py)
                },
    {
        overlay(self, top, x, y)
    }

    /// This image resampled to a size that is no smaller on either axis.
    pub fn enlarged(&self, width: u32, height: u32) -> (r: RgbImage)
        requires
            self@.width <= width,
            self@.height <= height,
            sampled_from(self@.width, self@.height),
            samplable(width as int, height as int),
        ensures
            r@ == (Raster {
                width: width as int,
                height: height as int,
                data: resampled(
                    self@.data,
                    self@.width,
                    self@.height,
                    width as int,
                    height as int,
                ),
            }),
    {
        enlarge(self, width, height)
    }

    /// A blurred copy of this image.
    pub fn blurred(&self, sigma: u8) -> (r: RgbImage)
        requires
            samplable(self@.width, self@.height),
            0 < sigma <= MAX_SIGMA,
        ensures
            r@.sized(self@.width, self@.height),
            blurs_to(self@.data, self@.width, self@.height, sigma, r@.data),
            forall|channel: int, low: u8, high: u8| #[trigger]
                channel_within(self@, channel, low, high) ==> channel_within(
                    r@,
                    channel,
                    low,
                    high,
                ),
    {
        gaussian_blur(self, sigma)
    }
}

/// Whether the bytes of an image of that size fit into memory.
pub fn is_storable(width: u32, height: u32) -> (r: bool)
    ensures
        r == storable(width as int, height as int),
{
    assert(0 <= width * height <= 0xffff_ffff * 0xffff_ffff) by (nonlinear_arith)
        requires
            0 <= width <= 0xffff_ffff,
            0 <= height <= 0xffff_ffff,
    ;
    3 * (width as i128 * height as i128) <= isize::MAX as i128
}

/// Whether an image of that size can be resampled to and blurred.
pub fn is_samplable(width: u32, height: u32) -> (r: bool)
    ensures
        r == samplable(width as int, height as int),
{
    assert(0 <= width * height <= 0xffff_ffff * 0xffff_ffff) by (nonlinear_arith)
        requires
            0 <= width <= 0xffff_ffff,
            0 <= height <= 0xffff_ffff,
    ;
    let room: i128 = isize::MAX as i128;
    0 < width && 0 < height && 16 * (width as i128 * height as i128) <= room && 1024 * (
    width as i128) <= room
}

/// Pixels stand row by row from the top, each with its red, green and blue byte; those
/// outside the image are none.
pub proof fn law_pixels_stand_in_rows(r: Raster, x: int, y: int)
    ensures
        r.pixel(x, y) == seq![
            r.data[3 * (y * r.width + x)],
            r.data[3 * (y * r.width + x) + 1],
            r.data[3 * (y * r.width + x) + 2],
        ],
        r.holds(x, y) <==> 0 <= x < r.width && 0 <= y < r.height,
        r.sized(x, y) <==> r.width == x && r.height == y,
{
}

/// An encoded file has the size that the image crate reads in it; only a file whose
/// first frame and picture differ in size is not handed to the crate.
pub proof fn law_size_is_what_the_file_says(bytes: Seq<u8>)
    ensures
        !uneven_frame(bytes) ==> encoded_size(bytes) == decoded_size(bytes),
        uneven_frame(bytes) ==> encoded_size(bytes) is None,
        forall|photo: Raster| #[trigger]
            encodes(bytes, photo) ==> !uneven_frame(bytes) && decoded_size(bytes) == Some(
                (photo.width as u32, photo.height as u32),
            ) && decodes_to(bytes, Ok(photo.data)),
{
}

} // verus!
