use epd_photoframe_server::color::{Color, ColorError};

#[test]
fn hex_opaque() {
    assert_eq!("#ff0000".parse::<Color>().unwrap(), Color::rgba(255, 0, 0, 255));
    assert_eq!("#00ff80".parse::<Color>().unwrap(), Color::rgba(0, 255, 128, 255));
}

#[test]
fn rgb_opaque() {
    assert_eq!("rgb(255, 0, 0)".parse::<Color>().unwrap(), Color::rgba(255, 0, 0, 255));
    assert_eq!("rgb(1,2,3)".parse::<Color>().unwrap(), Color::rgba(1, 2, 3, 255));
}

#[test]
fn rgba_float_alpha() {
    assert_eq!("rgba(255, 0, 0, 1.0)".parse::<Color>().unwrap(), Color::rgba(255, 0, 0, 255));
    assert_eq!("rgba(255, 0, 0, 0)".parse::<Color>().unwrap(), Color::rgba(255, 0, 0, 0));
    let half = "rgba(0, 0, 0, 0.5)".parse::<Color>().unwrap();
    assert_eq!(half, Color::rgba(0, 0, 0, 128));
}

#[test]
fn rejects_bad_inputs() {
    assert!("#ff".parse::<Color>().is_err());
    assert!("#gggggg".parse::<Color>().is_err());
    assert!("rgb(256, 0, 0)".parse::<Color>().is_err());
    assert!("rgba(0, 0, 0, 2.0)".parse::<Color>().is_err());
    assert!("rgb(1, 2)".parse::<Color>().is_err());
    assert!("hsl(0, 0, 0)".parse::<Color>().is_err());
}

#[test]
fn messages_name_the_part_at_fault() {
    let message = |text: &str| match text.parse::<Color>().unwrap_err() {
        ColorError::AlphaOutOfRange(written) => {
            let number: f32 = written.parse().unwrap();
            ColorError::AlphaOutOfRange(written).message(&number.to_string())
        }
        other => other.message("unused"),
    };
    assert_eq!(message("#ff"), "invalid hex colour `#ff`");
    assert_eq!(message("rgba(1, 2, 3)"), "rgba() takes 4 components, got 3");
    assert_eq!(message("rgb()"), "rgb() takes 3 components, got 1");
    assert_eq!(message("rgb(1, 256, 3)"), "invalid 0-255 byte `256`");
    assert_eq!(message("rgb(1, -2, 3)"), "invalid 0-255 byte `-2`");
    assert_eq!(message("rgba(1, 2, 3, x)"), "invalid alpha `x`");
    assert_eq!(message("rgba(1, 2, 3, 1.5)"), "alpha 1.5 out of range [0.0, 1.0]");
    assert_eq!(message("rgba(1, 2, 3, 2.0)"), "alpha 2 out of range [0.0, 1.0]");
    assert_eq!(message("rgba(1, 2, 3, -1e1)"), "alpha -10 out of range [0.0, 1.0]");
    assert_eq!(
        message(" hsl(0, 0, 0) "),
        "expected `#RRGGBB`, `rgb(...)`, or `rgba(...)`, got `hsl(0, 0, 0)`"
    );
}

#[test]
fn each_error_has_its_variant() {
    assert!(matches!(Color::parse("#12345"), Err(ColorError::InvalidHex(_))));
    assert!(matches!(Color::parse("rgba(1)"), Err(ColorError::RgbaComponents(1))));
    assert!(matches!(Color::parse("rgb(1,2,3,4)"), Err(ColorError::RgbComponents(4))));
    assert!(matches!(Color::parse("rgb(1,2,)"), Err(ColorError::InvalidByte(_))));
    assert!(matches!(Color::parse("rgba(1,2,3,)"), Err(ColorError::InvalidAlpha(_))));
    assert!(matches!(Color::parse("rgba(1,2,3,-1)"), Err(ColorError::AlphaOutOfRange(_))));
    assert!(matches!(Color::parse(""), Err(ColorError::Unrecognised(_))));
}

#[test]
fn white_space_is_allowed_around_parts() {
    assert_eq!(
        "\u{3000} rgba  ( +1 ,\t2 ,3, .5 )\n".parse::<Color>().unwrap(),
        Color::rgba(1, 2, 3, 128)
    );
    assert!("rgb (1, 2, 3) x".parse::<Color>().is_err());
    assert!("RGB(1, 2, 3)".parse::<Color>().is_err());
}

#[test]
fn hex_digits_in_either_case() {
    assert_eq!("#AbCdEf".parse::<Color>().unwrap(), Color::rgb(0xab, 0xcd, 0xef));
    assert_eq!(Color::rgb(1, 2, 3).to_rgb(), [1, 2, 3]);
}
