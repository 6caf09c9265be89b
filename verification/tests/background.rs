use epd_photoframe_server::background::{
    apply, apply_encoded, compose, is_paddable, offset_x, offset_y, BackgroundError,
};
use epd_photoframe_server::config::{BackgroundMethod, ColorConfig};
use epd_photoframe_server::raster::{is_samplable, is_storable, RgbImage};

#[test]
fn exact_size_passes_through() {
    let src = RgbImage::from_pixel(200, 200, [10, 20, 30]);
    let out = apply(src, 200, 200, &BackgroundMethod::Solid(ColorConfig::rgb(0, 0, 0))).unwrap();
    assert_eq!((out.width(), out.height()), (200, 200));
    assert_eq!(out.get_pixel(0, 0), [10, 20, 30]);
}

#[test]
fn oversized_errors() {
    let src = RgbImage::from_pixel(300, 200, [0, 0, 0]);
    let err = apply(src, 200, 200, &BackgroundMethod::Solid(ColorConfig::rgb(0, 0, 0))).unwrap_err();
    assert!(err.message().contains("larger than requested"));
}

#[test]
fn solid_centres_smaller_image() {
    let src = RgbImage::from_pixel(100, 80, [128, 0, 0]);
    let out =
        apply(src, 200, 200, &BackgroundMethod::Solid(ColorConfig::rgb(0, 255, 0))).unwrap();
    assert_eq!((out.width(), out.height()), (200, 200));
    assert_eq!(out.get_pixel(100, 100), [128, 0, 0]);
    assert_eq!(out.get_pixel(0, 0), [0, 255, 0]);
}

#[test]
fn solid_ignores_alpha() {
    let src = RgbImage::from_pixel(100, 80, [0, 0, 0]);
    let out =
        apply(src, 200, 200, &BackgroundMethod::Solid(ColorConfig::rgba(10, 20, 30, 0))).unwrap();
    assert_eq!(out.get_pixel(0, 0), [10, 20, 30]);
}

#[test]
fn oversized_message_names_both_sizes() {
    let src = RgbImage::from_pixel(300, 200, [0, 0, 0]);
    let err = apply(src, 200, 201, &BackgroundMethod::Blur).unwrap_err();
    assert_eq!(
        err.message(),
        "returned image 300×200 is larger than requested 200×201"
    );
}

#[test]
fn odd_margins_round_towards_the_start() {
    let fg = RgbImage::from_pixel(2, 3, [1, 2, 3]);
    assert_eq!(offset_x(&fg, 5), 1);
    assert_eq!(offset_y(&fg, 6), 1);
    assert_eq!(offset_x(&fg, 1), 0);
    assert_eq!(offset_y(&fg, 3), 0);
    let out = compose(&fg, RgbImage::from_pixel(5, 6, [9, 9, 9]));
    for y in 0..6 {
        for x in 0..5 {
            let inside = (1..3).contains(&x) && (1..4).contains(&y);
            let expected = if inside { [1, 2, 3] } else { [9, 9, 9] };
            assert_eq!(out.get_pixel(x, y), expected);
        }
    }
}

fn striped() -> RgbImage {
    let data: Vec<u8> = (0..40 * 30 * 3).map(|i| if i % 2 == 0 { 0 } else { 250 }).collect();
    RgbImage::from_raw(40, 30, data).unwrap()
}

#[test]
fn blur_keeps_the_photo_and_softens_the_rest() {
    let photo = striped();
    let out = apply(striped(), 80, 60, &BackgroundMethod::Blur).unwrap();
    assert_eq!((out.width(), out.height()), (80, 60));
    for y in 0..30 {
        for x in 0..40 {
            assert_eq!(out.get_pixel(x + 20, y + 15), photo.get_pixel(x, y));
        }
    }
    // Every other channel is black in the photo: what lies around it is in between.
    for channel in out.get_pixel(0, 0) {
        assert!(channel > 60 && channel < 190);
    }
}

#[test]
fn encoded_photo_is_read_and_padded() {
    let mut bytes: Vec<u8> = Vec::new();
    let photo = image::RgbImage::from_pixel(3, 2, image::Rgb([200, 100, 50]));
    photo
        .write_to(&mut std::io::Cursor::new(&mut bytes), image::ImageFormat::Png)
        .unwrap();
    let method = BackgroundMethod::Solid(ColorConfig::rgb(1, 1, 1));
    let out = apply_encoded(&bytes, 5, 4, &method).unwrap();
    assert_eq!((out.width(), out.height()), (5, 4));
    assert_eq!(out.get_pixel(0, 0), [1, 1, 1]);
    assert_eq!(out.get_pixel(1, 1), [200, 100, 50]);
    assert_eq!(out.get_pixel(3, 2), [200, 100, 50]);
    assert!(matches!(
        apply_encoded(&bytes, 2, 2, &method),
        Err(BackgroundError::TooLarge(3, 2, 2, 2))
    ));
    let exact = apply_encoded(&bytes, 3, 2, &BackgroundMethod::Blur).unwrap();
    assert_eq!(exact.as_raw(), photo.as_raw().as_slice());
}

#[test]
fn screen_beyond_the_machine_is_refused() {
    let mut bytes: Vec<u8> = Vec::new();
    let photo = image::RgbImage::from_pixel(3, 2, image::Rgb([200, 100, 50]));
    photo
        .write_to(&mut std::io::Cursor::new(&mut bytes), image::ImageFormat::Png)
        .unwrap();
    for method in [BackgroundMethod::Solid(ColorConfig::rgb(1, 1, 1)), BackgroundMethod::Blur] {
        let err = apply_encoded(&bytes, u32::MAX, u32::MAX, &method).unwrap_err();
        assert!(matches!(err, BackgroundError::Unpaddable(u32::MAX, u32::MAX)));
        assert_eq!(err.message(), "no room to pad an image to 4294967295×4294967295");
    }
}

#[test]
fn padding_is_asked_of_the_machine_only_where_it_is_needed() {
    let img = RgbImage::from_pixel(3, 2, [0, 0, 0]);
    let solid = BackgroundMethod::Solid(ColorConfig::rgb(1, 1, 1));
    assert!(is_paddable(&img, 0, u32::MAX, &BackgroundMethod::Blur));
    assert!(is_paddable(&img, 3, 2, &BackgroundMethod::Blur));
    assert!(is_paddable(&img, 800, 480, &BackgroundMethod::Blur));
    assert!(is_paddable(&img, 3, 1_200_000, &BackgroundMethod::Blur));
    assert!(!is_paddable(&img, u32::MAX, u32::MAX, &solid));
    let empty = RgbImage::from_pixel(0, 0, [0, 0, 0]);
    assert!(!is_paddable(&empty, 0, 5, &BackgroundMethod::Blur));
    assert!(is_paddable(&empty, 0, 5, &solid));
    let long = RgbImage::from_pixel(2_000_000, 1, [0, 0, 0]);
    assert!(is_paddable(&long, 2_000_001, 1, &BackgroundMethod::Blur));
    let longest = RgbImage::from_pixel(4_194_303, 1, [0, 0, 0]);
    assert!(is_paddable(&longest, 4_194_304, 1, &BackgroundMethod::Blur));
    let longer = RgbImage::from_pixel(4_194_304, 1, [0, 0, 0]);
    assert!(!is_paddable(&longer, 4_194_305, 1, &BackgroundMethod::Blur));
    // Too large and exact photos need no padding, whatever the screen.
    let wide = RgbImage::from_pixel(2_000_000, 1, [5, 6, 7]);
    let out = apply(wide, 2_000_000, 1, &BackgroundMethod::Blur).unwrap();
    assert_eq!((out.width(), out.height()), (2_000_000, 1));
    let none = apply(RgbImage::from_pixel(1, 1, [0, 0, 0]), 0, 0, &BackgroundMethod::Blur);
    assert!(matches!(none, Err(BackgroundError::TooLarge(1, 1, 0, 0))));
}

#[test]
fn blur_is_the_one_of_the_image_crate() {
    let data = striped().as_raw().to_vec();
    let photo = image::RgbImage::from_raw(40, 30, data).unwrap();
    let cover =
        image::imageops::resize(&photo, 80, 60, image::imageops::FilterType::Triangle);
    let mut expected = image::imageops::blur(&cover, 24.0);
    image::imageops::overlay(&mut expected, &photo, 20, 15);
    let out = apply(striped(), 80, 60, &BackgroundMethod::Blur).unwrap();
    assert_eq!(out.as_raw(), expected.as_raw().as_slice());
}

#[test]
fn garbage_is_no_photo() {
    let method = BackgroundMethod::default();
    let err = apply_encoded(&[1, 2, 3], 5, 4, &method).unwrap_err();
    assert!(matches!(&err, BackgroundError::Unreadable(m) if !m.is_empty()));
    assert_eq!(err.message(), "decoding image");
}

#[test]
fn limits_on_sizes() {
    assert!(is_storable(1200, 1600));
    assert!(is_samplable(1200, 1600));
    assert!(!is_samplable(0, 1600));
    assert!(is_samplable(1 << 20, (1 << 20) + 1));
    assert!(!is_samplable(1600, 0));
    assert!(!is_samplable(u32::MAX, u32::MAX));
    assert!(!is_storable(u32::MAX, u32::MAX));
}
