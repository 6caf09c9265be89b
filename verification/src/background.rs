//! Reconciling a photo with the size of the screen.

use crate::color::Color;
use crate::config::{BackgroundMethod, ColorConfig};
use crate::raster::{
    blurs_to, channel_within, encoded_size, encodes, is_samplable, is_storable, resampled, samplable,
    sampled_from, spoils, storable, Raster, RgbImage, MAX_SAMPLED_SIDE,
};
use crate::text::{decimal, decimal_of, joined};
use vstd::prelude::*;

verus! {

/// How soft the blurred background is, in pixels.
pub const BLUR_SIGMA: u8 = 24;

/// Why a photo does not make a screen image.
#[derive(Debug)]
pub enum BackgroundError {
    /// The photo is larger than the screen on an axis. Holds the photo's width and
    /// height, then the screen's.
    TooLarge(u32, u32, u32, u32),
    /// The photo is not an image that can be read. Holds what is wrong with it, for
    /// the log.
    Unreadable(String),
    /// The photo fits, but the machine cannot pad it to the screen. Holds the
    /// screen's width and height.
    Unpaddable(u32, u32),
}

/// The message for a photo that is larger than the screen.
pub open spec fn too_large_message(iw: u32, ih: u32, width: u32, height: u32) -> Seq<char> {
    "returned image "@ + decimal(iw as nat) + "×"@ + decimal(ih as nat)
        + " is larger than requested "@ + decimal(width as nat) + "×"@ + decimal(height as nat)
}

impl BackgroundError {
    /// What went wrong, in words.
    pub fn message(&self) -> (r: String)
        ensures
            match self {
                BackgroundError::TooLarge(iw, ih, width, height) => r@ == too_large_message(
                    *iw,
                    *ih,
                    *width,
                    *height,
                ),
                BackgroundError::Unreadable(_) => r@ == "decoding image"@,
                BackgroundError::Unpaddable(width, height) => r@ == "no room to pad an image to "@
                    + decimal(*width as nat) + "×"@ + decimal(*height as nat),
            },
    {
        match self {
            BackgroundError::TooLarge(iw, ih, width, height) => {
                let a = joined("returned image ".to_owned(), decimal_of(*iw as u64).as_str());
                let b = joined(joined(a, "×"), decimal_of(*ih as u64).as_str());
                let c = joined(b, " is larger than requested ");
                let d = joined(c, decimal_of(*width as u64).as_str());
                joined(joined(d, "×"), decimal_of(*height as u64).as_str())
            },
            BackgroundError::Unreadable(_) => "decoding image".to_owned(),
            BackgroundError::Unpaddable(width, height) => {
                let a = "no room to pad an image to ".to_owned();
                let b = joined(a, decimal_of(*width as u64).as_str());
                joined(joined(b, "×"), decimal_of(*height as u64).as_str())
            },
        }
    }
}

/// The margin before a photo that is centred on a longer axis.
pub open spec fn centred(photo: int, screen: int) -> int {
    if photo <= screen {
        (screen - photo) / 2
    } else {
        0
    }
}

/// How far from the left a photo is placed on a screen of that width.
pub fn offset_x(fg: &RgbImage, width: u32) -> (r: u32)
    ensures
        r == centred(fg@.width, width as int),
{
    let margin: u32 = if fg.width() <= width {
        width - fg.width()
    } else {
        0
    };
    margin / 2
}

/// How far from the top a photo is placed on a screen of that height.
pub fn offset_y(fg: &RgbImage, height: u32) -> (r: u32)
    ensures
        r == centred(fg@.height, height as int),
{
    let margin: u32 = if fg.height() <= height {
        height - fg.height()
    } else {
        0
    };
    margin / 2
}

/// Whether `r` is the photo `fg` centred on `bg`.
pub open spec fn composed(r: Raster, fg: Raster, bg: Raster) -> bool {
    let left = centred(fg.width, bg.width);
    let top = centred(fg.height, bg.height);
    &&& r.sized(bg.width, bg.height)
    &&& forall|x: int, y: int|
        r.holds(x, y) ==> #[trigger] r.pixel(x, y) == if fg.holds(x - left, y - top) {
            fg.pixel(x - left, y - top)
        } else {
            bg.pixel(x, y)
        }
}

/// Centres a photo on a background.
pub fn compose(fg: &RgbImage, bg: RgbImage) -> (r: RgbImage)
    ensures
        composed(r@, fg@, bg@),
{
    let x: u32 = offset_x(fg, bg.width());
    let y: u32 = offset_y(fg, bg.height());
    bg.overlaid(fg, x, y)
}

/// Whether `r` has that size, shows the photo `fg` at its centre and `color`
/// around it.
pub open spec fn padded(r: Raster, fg: Raster, width: int, height: int, color: Seq<u8>) -> bool {
    let left = centred(fg.width, width);
    let top = centred(fg.height, height);
    &&& r.sized(width, height)
    &&& forall|x: int, y: int|
        r.holds(x, y) ==> #[trigger] r.pixel(x, y) == if fg.holds(x - left, y - top) {
            fg.pixel(x - left, y - top)
        } else {
            color
        }
}

/// Centres a photo on a plain background.
pub fn pad(fg: &RgbImage, width: u32, height: u32, color: [u8; 3]) -> (r: RgbImage)
    requires
        storable(width as int, height as int),
    ensures
        padded(r@, fg@, width as int, height as int, color@),
{
    let bg = RgbImage::from_pixel(width, height, color);
    let ghost plain = bg@;
    let out = compose(fg, bg);
    assert forall|x: int, y: int| out@.holds(x, y) implies #[trigger] out@.pixel(x, y) == if fg@.holds(
        x - centred(fg@.width, width as int),
        y - centred(fg@.height, height as int),
    ) {
        fg@.pixel(
            x - centred(fg@.width, width as int),
            y - centred(fg@.height, height as int),
        )
    } else {
        color@
    } by {
        assert(plain.pixel(x, y) == color@);
    }
    out
}

/// A photo stretched over the whole screen.
pub open spec fn cover(fg: Raster, width: int, height: int) -> Raster {
    Raster { width, height, data: resampled(fg.data, fg.width, fg.height, width, height) }
}

/// Whether `r` is the photo `fg` centred on a blurred copy of itself that covers
/// the screen.
pub open spec fn softened(r: Raster, fg: Raster, width: int, height: int) -> bool {
    exists|soft: Seq<u8>|
        #[trigger] blurs_to(cover(fg, width, height).data, width, height, BLUR_SIGMA, soft)
            && composed(r, fg, Raster { width, height, data: soft })
}

/// Whether `r` has that size, shows the photo `fg` at its centre, and around it
/// goes beyond no channel's least or greatest value in the photo stretched over
/// the screen.
pub open spec fn framed(r: Raster, fg: Raster, width: int, height: int) -> bool {
    let left = centred(fg.width, width);
    let top = centred(fg.height, height);
    &&& r.sized(width, height)
    &&& forall|x: int, y: int|
        r.holds(x, y) && fg.holds(x - left, y - top) ==> #[trigger] r.pixel(x, y) == fg.pixel(
            x - left,
            y - top,
        )
    &&& forall|x: int, y: int, channel: int, low: u8, high: u8|
        #![trigger r.pixel(x, y), channel_within(cover(fg, width, height), channel, low, high)]
        r.holds(x, y) && !fg.holds(x - left, y - top) && channel_within(
            cover(fg, width, height),
            channel,
            low,
            high,
        ) ==> low <= r.pixel(x, y)[channel] <= high
}

/// Centres a photo on a blurred copy of itself that covers the screen.
pub fn blur(fg: &RgbImage, width: u32, height: u32) -> (r: RgbImage)
    requires
        fg@.width <= width,
        fg@.height <= height,
        sampled_from(fg@.width, fg@.height),
        samplable(width as int, height as int),
    ensures
        softened(r@, fg@, width as int, height as int),
        framed(r@, fg@, width as int, height as int),
{
    let stretched = fg.enlarged(width, height);
    let soft = stretched.blurred(BLUR_SIGMA);
    let ghost bg = soft@;
    let out = compose(fg, soft);
    proof {
        let left = centred(fg@.width, width as int);
        let top = centred(fg@.height, height as int);
        let whole = cover(fg@, width as int, height as int);
        assert(whole == stretched@);
        assert(bg == (Raster { width: width as int, height: height as int, data: bg.data }));
        assert(blurs_to(whole.data, width as int, height as int, BLUR_SIGMA, bg.data));
        assert forall|x: int, y: int, channel: int, low: u8, high: u8|
            #![trigger out@.pixel(x, y), channel_within(whole, channel, low, high)]
            out@.holds(x, y) && !fg@.holds(x - left, y - top) && channel_within(
                whole,
                channel,
                low,
                high,
            ) implies low <= out@.pixel(x, y)[channel] <= high by {
            assert(channel_within(bg, channel, low, high));
            assert(bg.holds(x, y));
            assert(out@.pixel(x, y) == bg.pixel(x, y));
        }
    }
    out
}

/// The channels of a colour, without alpha.
pub open spec fn channels(c: Color) -> Seq<u8> {
    seq![c.r, c.g, c.b]
}

/// Whether a photo of one size fits into another.
pub open spec fn fits(photo: Raster, width: int, height: int) -> bool {
    photo.width <= width && photo.height <= height
}

/// Whether the machine can do what a photo needs to become a screen image: where
/// the photo fits and is not of that size already, pad it.
pub open spec fn paddable(photo: Raster, width: int, height: int, method: BackgroundMethod) -> bool {
    fits(photo, width, height) && !photo.sized(width, height) ==> match method {
        BackgroundMethod::Solid(_) => storable(width, height),
        BackgroundMethod::Blur => samplable(width, height) && sampled_from(
            photo.width,
            photo.height,
        ),
    }
}

/// Whether the machine can make a screen image of a photo.
pub fn is_paddable(img: &RgbImage, width: u32, height: u32, method: &BackgroundMethod) -> (r: bool)
    ensures
        r == paddable(img@, width as int, height as int, *method),
{
    let iw: u32 = img.width();
    let ih: u32 = img.height();
    if iw > width || ih > height || (iw == width && ih == height) {
        return true;
    }
    match method {
        BackgroundMethod::Solid(_) => is_storable(width, height),
        BackgroundMethod::Blur => is_samplable(width, height) && iw <= MAX_SAMPLED_SIDE && ih
            <= MAX_SAMPLED_SIDE,
    }
}

/// What a screen image of that size is made of, from a photo that fits: the photo
/// itself where it has the size, else the photo centred on the background.
pub open spec fn reconciled(
    r: Raster,
    photo: Raster,
    width: int,
    height: int,
    method: BackgroundMethod,
) -> bool {
    if photo.sized(width, height) {
        r == photo
    } else {
        match method {
            BackgroundMethod::Solid(c) => padded(r, photo, width, height, channels(c.0)),
            BackgroundMethod::Blur => softened(r, photo, width, height) && framed(
                r,
                photo,
                width,
                height,
            ),
        }
    }
}

/// Reconcile `img` with the exact target size: error if it's larger on either
/// axis; otherwise pad according to `method` (no-op if already exact). Around the
/// photo the blurred background is whatever the platform's arithmetic makes of
/// it.
pub fn apply(img: RgbImage, width: u32, height: u32, method: &BackgroundMethod) -> (r: Result<
    RgbImage,
    BackgroundError,
>)
    requires
        paddable(img@, width as int, height as int, *method),
    ensures
        match r {
            Ok(out) => fits(img@, width as int, height as int) && reconciled(
                out@,
                img@,
                width as int,
                height as int,
                *method,
            ),
            Err(BackgroundError::TooLarge(iw, ih, w, h)) => !fits(
                img@,
                width as int,
                height as int,
            ) && img@.sized(iw as int, ih as int) && w == width && h == height,
            Err(_) => false,
        },
        r is Ok <==> img@.width <= width && img@.height <= height,
        img@.width == width && img@.height == height ==> (r matches Ok(out) && out@ == img@),
{
    let iw: u32 = img.width();
    let ih: u32 = img.height();
    if iw > width || ih > height {
        return Err(BackgroundError::TooLarge(iw, ih, width, height));
    }
    if iw == width && ih == height {
        return Ok(img);
    }
    match method {
        BackgroundMethod::Solid(color) => Ok(pad(&img, width, height, color.to_rgb())),
        BackgroundMethod::Blur => Ok(blur(&img, width, height)),
    }
}

/// Reads an encoded photo and reconciles it with the target size.
pub fn apply_encoded(bytes: &[u8], width: u32, height: u32, method: &BackgroundMethod) -> (r: Result<
    RgbImage,
    BackgroundError,
>)
    ensures
        match r {
            Ok(out) => exists|photo: Raster|
                {
                    &&& #[trigger] encodes(bytes@, photo)
                    &&& fits(photo, width as int, height as int)
                    &&& paddable(photo, width as int, height as int, *method)
                    &&& reconciled(out@, photo, width as int, height as int, *method)
                },
            Err(BackgroundError::TooLarge(iw, ih, w, h)) => encoded_size(bytes@) == Some((iw, ih))
                && (iw > width || ih > height) && w == width && h == height,
            Err(BackgroundError::Unreadable(m)) => spoils(bytes@, m@),
            Err(BackgroundError::Unpaddable(w, h)) => exists|photo: Raster|
                {
                    &&& #[trigger] encodes(bytes@, photo)
                    &&& !paddable(photo, width as int, height as int, *method)
                    &&& w == width
                    &&& h == height
                },
        },
{
    match RgbImage::decode(bytes) {
        Ok(img) => {
            let ghost photo = img@;
            assert(encodes(bytes@, photo));
            if is_paddable(&img, width, height, method) {
                apply(img, width, height, method)
            } else {
                Err(BackgroundError::Unpaddable(width, height))
            }
        },
        Err(m) => Err(BackgroundError::Unreadable(m)),
    }
}

// ----- Laws ------------------------------------------------------------------------------------

/// A photo that fits lies on the screen with all its pixels, and its margins on
/// opposite sides differ by a pixel at most.
pub proof fn law_photo_is_centred(photo: int, screen: int)
    requires
        0 <= photo <= screen,
    ensures
        0 <= centred(photo, screen),
        centred(photo, screen) + photo <= screen,
        0 <= (screen - photo - centred(photo, screen)) - centred(photo, screen) <= 1,
{
}

/// Whatever the background, the screen image has the screen's size and every
/// pixel of the photo.
pub proof fn law_photo_stays_whole(
    r: Raster,
    photo: Raster,
    width: int,
    height: int,
    method: BackgroundMethod,
    x: int,
    y: int,
)
    requires
        fits(photo, width, height),
        reconciled(r, photo, width, height, method),
        photo.holds(x, y),
    ensures
        r.sized(width, height),
        r.pixel(x + centred(photo.width, width), y + centred(photo.height, height)) == photo.pixel(
            x,
            y,
        ),
{
    let left = centred(photo.width, width);
    let top = centred(photo.height, height);
    law_photo_is_centred(photo.width, width);
    law_photo_is_centred(photo.height, height);
    assert(r.holds(x + left, y + top));
    assert(x + left - left == x);
    assert(y + top - top == y);
    assert(photo.holds(x + left - left, y + top - top));
}

/// A photo of the screen's size is the screen image, whatever the background.
pub proof fn law_exact_photo_is_kept(
    r: Raster,
    photo: Raster,
    width: int,
    height: int,
    method: BackgroundMethod,
)
    requires
        photo.width == width,
        photo.height == height,
        reconciled(r, photo, width, height, method),
    ensures
        r == photo,
{
}

/// On a solid background every pixel of the screen is a pixel of the photo, with half
/// of the free columns on its left and half of the free rows above it, rounded down,
/// or else the background's red, green and blue; its alpha does not count.
pub proof fn law_solid_background_surrounds_the_photo(
    r: Raster,
    photo: Raster,
    width: int,
    height: int,
    c: ColorConfig,
    x: int,
    y: int,
)
    requires
        0 <= photo.width <= width,
        0 <= photo.height <= height,
        reconciled(r, photo, width, height, BackgroundMethod::Solid(c)),
        0 <= x < width,
        0 <= y < height,
    ensures
        r.width == width,
        r.height == height,
        ({
            let left = (width - photo.width) / 2;
            let top = (height - photo.height) / 2;
            r.pixel(x, y) == if left <= x < left + photo.width && top <= y < top + photo.height {
                photo.pixel(x - left, y - top)
            } else {
                seq![c.0.r, c.0.g, c.0.b]
            }
        }),
{
    assert(r.holds(x, y));
    if photo.sized(width, height) {
        assert((width - photo.width) / 2 == 0);
    }
}

/// On a blurred background every pixel of the screen is a pixel of the photo, placed
/// as on a solid one, or else a pixel of the photo stretched over the screen and
/// blurred by 24 pixels.
pub proof fn law_blurred_background_surrounds_the_photo(
    r: Raster,
    photo: Raster,
    width: int,
    height: int,
)
    requires
        0 <= photo.width <= width,
        0 <= photo.height <= height,
        !(photo.width == width && photo.height == height),
        reconciled(r, photo, width, height, BackgroundMethod::Blur),
    ensures
        r.width == width,
        r.height == height,
        exists|soft: Seq<u8>|
            #[trigger] blurs_to(
                resampled(photo.data, photo.width, photo.height, width, height),
                width,
                height,
                24,
                soft,
            ) && forall|x: int, y: int|
                0 <= x < width && 0 <= y < height ==> #[trigger] r.pixel(x, y) == if (width
                    - photo.width) / 2 <= x < (width - photo.width) / 2 + photo.width && (height
                    - photo.height) / 2 <= y < (height - photo.height) / 2 + photo.height {
                    photo.pixel(x - (width - photo.width) / 2, y - (height - photo.height) / 2)
                } else {
                    (Raster { width, height, data: soft }).pixel(x, y)
                },
{
    let soft = choose|soft: Seq<u8>|
        #[trigger] blurs_to(cover(photo, width, height).data, width, height, BLUR_SIGMA, soft)
            && composed(r, photo, Raster { width, height, data: soft });
    assert(blurs_to(
        resampled(photo.data, photo.width, photo.height, width, height),
        width,
        height,
        24,
        soft,
    ));
    assert forall|x: int, y: int| 0 <= x < width && 0 <= y < height implies #[trigger] r.pixel(x, y)
        == if (width - photo.width) / 2 <= x < (width - photo.width) / 2 + photo.width && (height
        - photo.height) / 2 <= y < (height - photo.height) / 2 + photo.height {
        photo.pixel(x - (width - photo.width) / 2, y - (height - photo.height) / 2)
    } else {
        (Raster { width, height, data: soft }).pixel(x, y)
    } by {
        assert(r.holds(x, y));
    }
}

/// A photo that does not fit, or fits exactly, is never refused for want of room;
/// another is, on a solid background, exactly where three bytes for each pixel of
/// the screen are more than the machine can address.
pub proof fn law_room_is_asked_for_padding_alone(
    photo: Raster,
    width: int,
    height: int,
    method: BackgroundMethod,
    c: ColorConfig,
)
    ensures
        photo.width > width || photo.height > height ==> paddable(photo, width, height, method),
        photo.width == width && photo.height == height ==> paddable(photo, width, height, method),
        3 * (width * height) <= isize::MAX ==> paddable(
            photo,
            width,
            height,
            BackgroundMethod::Solid(c),
        ),
        0 < width && 0 < height && photo.width <= 1_000_000 && photo.height <= 1_000_000 && width
            <= 1_000_000 && 16 * (width * height) <= isize::MAX ==> paddable(
            photo,
            width,
            height,
            BackgroundMethod::Blur,
        ),
{
}

/// The message for a photo that is too large names its size, then the screen's.
pub proof fn law_too_large_names_both_sizes(iw: u32, ih: u32, width: u32, height: u32)
    ensures
        too_large_message(iw, ih, width, height) == "returned image "@ + decimal(iw as nat) + "×"@
            + decimal(ih as nat) + " is larger than requested "@ + decimal(width as nat) + "×"@
            + decimal(height as nat),
{
}

} // verus!
