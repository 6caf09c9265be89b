use epd_photoframe_server::config::{
    BackgroundMethod, ColorConfig, DiffuseMethod, DitherConfig, FitMethod, HeaderLayout,
    NoiseSource, Palette, Strategy, Units, WeatherLayout,
};
use epd_photoframe_server::schedule::{Rotate, ScheduleError};

#[test]
fn color_hex_opaque() {
    assert_eq!("#ff0000".parse::<ColorConfig>().unwrap(), ColorConfig::rgba(255, 0, 0, 255));
    assert_eq!("#00ff80".parse::<ColorConfig>().unwrap(), ColorConfig::rgba(0, 255, 128, 255));
}

#[test]
fn color_rgb_opaque() {
    assert_eq!("rgb(255, 0, 0)".parse::<ColorConfig>().unwrap(), ColorConfig::rgba(255, 0, 0, 255));
    assert_eq!("rgb(1,2,3)".parse::<ColorConfig>().unwrap(), ColorConfig::rgba(1, 2, 3, 255));
}

#[test]
fn color_rgba_float_alpha() {
    assert_eq!("rgba(255, 0, 0, 1.0)".parse::<ColorConfig>().unwrap(), ColorConfig::rgba(255, 0, 0, 255));
    assert_eq!("rgba(255, 0, 0, 0)".parse::<ColorConfig>().unwrap(), ColorConfig::rgba(255, 0, 0, 0));
    let half = "rgba(0, 0, 0, 0.5)".parse::<ColorConfig>().unwrap();
    assert_eq!(half, ColorConfig::rgba(0, 0, 0, 128));
}

#[test]
fn color_rejects_bad_inputs() {
    assert!("#ff".parse::<ColorConfig>().is_err());
    assert!("#gggggg".parse::<ColorConfig>().is_err());
    assert!("rgb(256, 0, 0)".parse::<ColorConfig>().is_err());
    assert!("rgba(0, 0, 0, 2.0)".parse::<ColorConfig>().is_err());
    assert!("rgb(1, 2)".parse::<ColorConfig>().is_err());
    assert!("hsl(0, 0, 0)".parse::<ColorConfig>().is_err());
}

#[test]
fn rotate_deserialises_cron_variant() {
    let r = Rotate::parse("cron", "0 0 2,14 * * *").unwrap();
    assert!(matches!(r, Rotate::Cron(_)));
}

#[test]
fn rotate_deserialises_natural_variant() {
    let r = Rotate::parse("natural", "at 2 AM and 2 PM").unwrap();
    assert!(matches!(r, Rotate::Natural(_)));
}

#[test]
fn rotate_rejects_unknown_key() {
    let r = Rotate::parse("regex", "xyz");
    assert!(r.is_err());
}

#[test]
fn rotate_rejects_invalid_cron() {
    let r = Rotate::parse("cron", "not a schedule");
    assert!(r.is_err());
}

#[test]
fn schedule_errors_name_the_schedule() {
    let unknown = Rotate::parse("regex", "xyz").unwrap_err();
    assert!(matches!(unknown, ScheduleError::UnknownKey(_)));
    assert_eq!(unknown.message(), "unknown variant `regex`, expected `cron` or `natural`");
    let cron = Rotate::parse("cron", "not a schedule").unwrap_err();
    assert!(matches!(cron, ScheduleError::InvalidCron(_, _)));
    assert!(cron.message().starts_with("invalid cron `not a schedule`: "));
    assert!(cron.message().len() > "invalid cron `not a schedule`: ".len());
    let natural = Rotate::parse("natural", "whenever").unwrap_err();
    assert!(matches!(natural, ScheduleError::InvalidNatural(_, _)));
    assert!(natural
        .message()
        .starts_with("invalid natural-language schedule `whenever`: "));
}

#[test]
fn background_is_blur_or_a_colour() {
    assert_eq!("blur".parse::<BackgroundMethod>().unwrap(), BackgroundMethod::Blur);
    assert_eq!(
        "rgb(1, 2, 3)".parse::<BackgroundMethod>().unwrap(),
        BackgroundMethod::Solid(ColorConfig::rgb(1, 2, 3))
    );
    assert!(" blur".parse::<BackgroundMethod>().is_err());
    assert_eq!(
        BackgroundMethod::default(),
        BackgroundMethod::Solid(ColorConfig::rgb(255, 255, 255))
    );
}

#[test]
fn noise_sources_by_name() {
    let parse = |s: &str| s.parse::<NoiseSource>();
    assert_eq!(parse("none").unwrap(), NoiseSource::Off);
    assert_eq!(parse("bayer").unwrap(), NoiseSource::Bayer(None));
    assert_eq!(parse("bayer:3").unwrap(), NoiseSource::Bayer(Some(3)));
    assert_eq!(parse("ign").unwrap(), NoiseSource::InterleavedGradient);
    assert_eq!(
        parse("interleaved-gradient-noise").unwrap(),
        NoiseSource::InterleavedGradient
    );
    assert_eq!(parse("white").unwrap(), NoiseSource::White);
    assert_eq!(
        parse("bayer:18446744073709551615").unwrap(),
        NoiseSource::Bayer(Some(usize::MAX))
    );
    assert_eq!(
        parse("bayer:18446744073709551616").unwrap_err(),
        "invalid bayer depth in `bayer:18446744073709551616`"
    );
    assert_eq!(parse("bayer:").unwrap_err(), "invalid bayer depth in `bayer:`");
    assert_eq!(parse("pink").unwrap_err(), "unknown noise source `pink`");
    assert_eq!(parse("").unwrap_err(), "unknown noise source ``");
}

#[test]
fn defaults() {
    assert_eq!(FitMethod::default(), FitMethod::Crop);
    assert_eq!(Units::default(), Units::Metric);
    assert_eq!(HeaderLayout::default(), HeaderLayout::DayDate);
    assert_eq!(WeatherLayout::default(), WeatherLayout::One);
    assert_eq!(
        DitherConfig::default(),
        DitherConfig {
            noise: NoiseSource::InterleavedGradient,
            strategy: Strategy::OctahedronClosest,
            diffuse: DiffuseMethod::FloydSteinberg,
            dither_palette: Palette::Spectra6,
            output_palette: Palette::Spectra6,
        }
    );
}

#[test]
fn palettes_have_six_colours() {
    assert_eq!(
        Palette::Naive.colors(),
        vec![
            [0, 0, 0],
            [255, 255, 255],
            [255, 255, 0],
            [255, 0, 0],
            [0, 0, 255],
            [0, 255, 0]
        ]
    );
    assert_eq!(
        Palette::Spectra6.colors(),
        vec![
            [58, 0, 66],
            [179, 208, 200],
            [215, 233, 0],
            [151, 38, 44],
            [61, 38, 152],
            [96, 104, 86]
        ]
    );
    assert_eq!(
        Palette::Epdoptimize.colors(),
        vec![
            [0x19, 0x1e, 0x21],
            [0xe8, 0xe8, 0xe8],
            [0xef, 0xde, 0x44],
            [0xb2, 0x13, 0x18],
            [0x21, 0x57, 0xba],
            [0x12, 0x5f, 0x20]
        ]
    );
}

#[test]
fn channels_of_a_configured_colour() {
    assert_eq!(ColorConfig::rgba(9, 8, 7, 6).to_rgb(), [9, 8, 7]);
}
