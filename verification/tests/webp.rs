use epd_photoframe_server::background::{apply_encoded, BackgroundError};
use epd_photoframe_server::config::BackgroundMethod;
use epd_photoframe_server::raster::RgbImage;
use epd_photoframe_server::webp::has_uneven_frame;

fn chunk(tag: &[u8; 4], contents: &[u8]) -> Vec<u8> {
    let mut out = tag.to_vec();
    out.extend((contents.len() as u32).to_le_bytes());
    out.extend(contents);
    if contents.len() % 2 == 1 {
        out.push(0);
    }
    out
}

/// Width or height less one, in three bytes.
fn less_one(side: u32) -> Vec<u8> {
    (side - 1).to_le_bytes()[..3].to_vec()
}

fn file(flags: u8, side: u32, chunks: &[Vec<u8>]) -> Vec<u8> {
    let header = [vec![flags, 0, 0, 0], less_one(side), less_one(side)].concat();
    let mut contents = b"WEBP".to_vec();
    contents.extend(chunk(b"VP8X", &header));
    contents.extend(chunks.concat());
    chunk(b"RIFF", &contents)
}

fn frame(width: u32, height: u32, chunks: &[Vec<u8>]) -> Vec<u8> {
    let place = vec![0; 6];
    // No duration; the frame replaces what is behind it.
    let showing = vec![0, 0, 0, 2];
    chunk(b"ANMF", &[place, less_one(width), less_one(height), showing, chunks.concat()].concat())
}

/// The start of a lossy picture: a key frame, its signature and its size.
fn picture(width: u16, height: u16) -> Vec<u8> {
    let size = [width.to_le_bytes(), height.to_le_bytes()].concat();
    chunk(b"VP8 ", &[vec![0x10, 0, 0, 0x9d, 0x01, 0x2a], size, vec![0; 20]].concat())
}

fn animated(frame_size: (u32, u32), alpha: &[u8], picture_size: (u16, u16)) -> Vec<u8> {
    let inside = [chunk(b"ALPH", alpha), picture(picture_size.0, picture_size.1)];
    let first = frame(frame_size.0, frame_size.1, &inside);
    file(0x12, 8, &[chunk(b"ANIM", &[0; 6]), first])
}

#[test]
fn uneven_frames_are_noticed() {
    for alpha in [&[0, 9][..], &[0, 9, 9]] {
        assert!(has_uneven_frame(&animated((1, 1), alpha, (2, 2))));
        assert!(has_uneven_frame(&animated((2, 2), alpha, (2, 1))));
        assert!(has_uneven_frame(&animated((3, 2), alpha, (2, 2))));
        assert!(!has_uneven_frame(&animated((2, 2), alpha, (2, 2))));
        // The two top bits of a picture's sides are no part of its size.
        assert!(!has_uneven_frame(&animated((2, 2), alpha, (0x4002, 0xc002))));
    }
}

#[test]
fn uneven_frames_are_looked_for_in_animations_only() {
    let uneven = animated((1, 1), &[0, 9], (2, 2));
    let mut still = uneven.clone();
    still[20] = 0x10;
    assert!(!has_uneven_frame(&still));
    for (at, byte) in [(0, b'X'), (8, b'X'), (12, b'X')] {
        let mut other = uneven.clone();
        other[at] = byte;
        assert!(!has_uneven_frame(&other));
    }
    // Without alpha the decoder compares the sizes itself.
    let opaque = file(2, 8, &[chunk(b"ANIM", &[0; 6]), frame(1, 1, &[picture(2, 2)])]);
    assert!(!has_uneven_frame(&opaque));
    for n in 0..uneven.len() - 20 {
        assert!(!has_uneven_frame(&uneven[..n]));
    }
}

#[test]
fn first_frame_counts() {
    let alpha = || chunk(b"ALPH", &[0, 9]);
    let even = frame(2, 2, &[alpha(), picture(2, 2)]);
    let uneven = frame(1, 1, &[alpha(), picture(2, 2)]);
    let odd = chunk(b"ICCP", &[1, 2, 3]);
    let lead = [chunk(b"ANIM", &[0; 6]), odd];
    let with = |a: &Vec<u8>, b: &Vec<u8>| {
        file(0x12, 8, &[lead[0].clone(), lead[1].clone(), a.clone(), b.clone()])
    };
    assert!(has_uneven_frame(&with(&uneven, &even)));
    assert!(!has_uneven_frame(&with(&even, &uneven)));
}

#[test]
fn uneven_frame_is_no_photo() {
    let bytes = animated((1, 1), &[0, 9], (2, 2));
    assert_eq!(RgbImage::decode(&bytes).unwrap_err(), "frame and picture differ in size");
    assert!(matches!(
        apply_encoded(&bytes, 8, 8, &BackgroundMethod::Blur),
        Err(BackgroundError::Unreadable(_))
    ));
}

#[test]
fn other_animations_are_read() {
    let photo = image::RgbImage::from_pixel(3, 3, image::Rgb([200, 100, 50]));
    let mut still: Vec<u8> = Vec::new();
    photo
        .write_to(&mut std::io::Cursor::new(&mut still), image::ImageFormat::WebP)
        .unwrap();
    assert_eq!(&still[12..16], b"VP8L");
    assert_eq!(RgbImage::decode(&still).unwrap().get_pixel(2, 2), [200, 100, 50]);
    let first = frame(3, 3, &[still[12..].to_vec()]);
    let bytes = file(2, 3, &[chunk(b"ANIM", &[0; 6]), first]);
    let img = RgbImage::decode(&bytes).unwrap();
    assert_eq!((img.width(), img.height()), (3, 3));
    assert_eq!(img.get_pixel(1, 1), [200, 100, 50]);
}
