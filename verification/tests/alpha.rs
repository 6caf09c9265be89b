use epd_photoframe_server::alpha::{read_alpha, Alpha};
use epd_photoframe_server::color::Color;

fn reference(text: &str) -> Alpha {
    match text.parse::<f32>() {
        Err(_) => Alpha::NotANumber,
        Ok(f) => {
            if (0.0..=1.0).contains(&f) {
                Alpha::Byte((f * 255.0).round() as u8)
            } else {
                Alpha::OutOfRange
            }
        }
    }
}

fn check(text: &str) {
    let chars: Vec<char> = text.chars().collect();
    assert!(
        read_alpha(&chars) == reference(text),
        "{text}: {:?}",
        read_alpha(&chars)
    );
}

#[test]
fn agrees_on_plain_decimals() {
    for i in 0..=10_000u32 {
        check(&format!("0.{i:04}"));
        check(&format!("{}e-4", i));
        check(&format!(".{i}"));
    }
}

#[test]
fn agrees_near_every_boundary() {
    for k in 0..=255u32 {
        let half = (k as f64 + 0.5) / 255.0;
        let near = half as f32;
        for bits in near.to_bits().saturating_sub(3)..=near.to_bits() + 3 {
            let f = f32::from_bits(bits);
            check(&format!("{f}"));
            check(&format!("{:.30}", f as f64));
            let between = (f as f64 + f32::from_bits(bits + 1) as f64) / 2.0;
            check(&format!("{between:.60}"));
            check(&format!("{between:.60}1"));
            check(&format!("{:e}", between));
        }
    }
}

#[test]
fn agrees_at_the_ends_of_the_range() {
    for text in [
        "0", "-0", "-0.0", "+0", "1", "1.0", "+1", "1.", "1e0", "10e-1", "0.1e1", "100e-2",
        "1.0000000596046447753906250", "1.0000000596046447753906251", "1.00000005", "1.0000001",
        "1.00000011920928955078125", "0.99999997", "0.99999998", "-1e-50", "-1e-45", "-1e-46",
        "-0.7006492321624085e-45", "-0.7006492321624086e-45", "1e-99999999999999999999",
        "1e99999999999999999999", "0e99999999999999999999", "-0e99999999999999999999",
        "0.00000000000000000000000000000000000000000000000000001",
        "100000000000000000000000000000000000000000e-41", "2", "-1", "1e1", "255",
    ] {
        check(text);
    }
}

#[test]
fn agrees_on_what_is_a_number() {
    for text in [
        "", "+", "-", ".", "+.", "e5", "1e", "1e+", "1e+0", "1E-0", "1e 0", " 1", "1 ", "1_0", "0x1",
        "inf", "-inf", "+Infinity", "INFINITY", "infinit", "nan", "-NaN", "nanx", "+-1", "--1", "1.2.3",
        "1e1.0", "\u{661}", "1\u{0}", "1f", ".5e", "5.e-1", ".e1",
    ] {
        check(text);
    }
}

#[test]
fn long_texts_are_read_exactly() {
    let mut text = String::from("0.00196078431372549");
    for _ in 0..500 {
        text.push('0');
    }
    check(&text);
    text.push('1');
    check(&text);
    let zeros = "0".repeat(600);
    check(&format!("{zeros}.5{zeros}"));
    check(&format!("0.{zeros}5e600"));
    check(&format!("5{zeros}e-601"));
}

#[test]
fn half_is_128() {
    assert_eq!("rgba(0,0,0,0.5)".parse::<Color>().unwrap().a, 128);
    assert_eq!("rgba(0,0,0,1)".parse::<Color>().unwrap().a, 255);
    assert_eq!("rgba(0,0,0,.2)".parse::<Color>().unwrap().a, 51);
}
