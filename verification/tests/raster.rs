use epd_photoframe_server::raster::RgbImage;

fn gradient(width: u32, height: u32) -> Vec<u8> {
    (0..width * height * 3).map(|i| (i * 7 % 251) as u8).collect()
}

#[test]
fn raw_bytes_must_fit_the_size() {
    assert!(RgbImage::from_raw(2, 2, vec![0; 11]).is_none());
    assert!(RgbImage::from_raw(2, 2, vec![0; 13]).is_none());
    let img = RgbImage::from_raw(2, 2, (0..12).collect()).unwrap();
    assert_eq!(img.get_pixel(1, 0), [3, 4, 5]);
    assert_eq!(img.get_pixel(0, 1), [6, 7, 8]);
    assert_eq!(img.as_raw().len(), 12);
}

#[test]
fn enlarging_resamples_with_the_triangle_filter() {
    let small = RgbImage::from_raw(5, 4, gradient(5, 4)).unwrap();
    let large = small.enlarged(11, 9);
    assert_eq!((large.width(), large.height()), (11, 9));
    let reference = image::imageops::resize(
        &image::RgbImage::from_raw(5, 4, gradient(5, 4)).unwrap(),
        11,
        9,
        image::imageops::FilterType::Triangle,
    );
    assert_eq!(large.as_raw(), reference.as_raw().as_slice());
    assert_ne!(large.as_raw(), small.as_raw());
}

#[test]
fn blurring_a_plain_image_leaves_it_plain() {
    let plain = RgbImage::from_pixel(30, 20, [40, 80, 120]);
    let soft = plain.blurred(24);
    assert_eq!(soft.as_raw(), plain.as_raw());
}

#[test]
fn blurring_spreads_a_dot() {
    let mut data = vec![0u8; 9 * 9 * 3];
    data[(4 * 9 + 4) * 3] = 255;
    let dot = RgbImage::from_raw(9, 9, data).unwrap();
    let soft = dot.blurred(1);
    assert!(soft.get_pixel(4, 4)[0] < 255);
    assert!(soft.get_pixel(3, 4)[0] > 0);
}

#[test]
fn overlay_clips_at_the_far_edges() {
    let top = RgbImage::from_pixel(3, 3, [7, 7, 7]);
    let out = RgbImage::from_pixel(4, 4, [1, 1, 1]).overlaid(&top, 2, 3);
    for y in 0..4 {
        for x in 0..4 {
            let expected = if x >= 2 && y >= 3 { [7, 7, 7] } else { [1, 1, 1] };
            assert_eq!(out.get_pixel(x, y), expected);
        }
    }
}

#[test]
fn blurring_stays_within_the_channels() {
    let img = RgbImage::from_raw(20, 10, gradient(20, 10).iter().map(|b| 50 + b / 2).collect()).unwrap();
    for sigma in [1, 7, 24] {
        let soft = img.blurred(sigma);
        for channel in 0..3 {
            let of = |i: &RgbImage| -> Vec<u8> {
                i.as_raw().iter().skip(channel).step_by(3).copied().collect()
            };
            assert!(of(&soft).iter().min() >= of(&img).iter().min());
            assert!(of(&soft).iter().max() <= of(&img).iter().max());
        }
    }
}

#[test]
fn encoded_images_are_decoded() {
    let original = image::RgbImage::from_raw(6, 4, gradient(6, 4)).unwrap();
    let mut bytes: Vec<u8> = Vec::new();
    original
        .write_to(&mut std::io::Cursor::new(&mut bytes), image::ImageFormat::Png)
        .unwrap();
    let img = RgbImage::decode(&bytes).unwrap();
    assert_eq!((img.width(), img.height()), (6, 4));
    assert_eq!(img.as_raw(), original.as_raw().as_slice());
    bytes.truncate(bytes.len() / 2);
    assert!(RgbImage::decode(&bytes).is_err());
    assert!(RgbImage::decode(&[]).is_err());
}
