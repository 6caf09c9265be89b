//! What a screen is configured to show, and the notations its settings are
//! written in.

use crate::clock::Duration;
use crate::color::{color_text, Color, ColorError};
use crate::schedule::{Rotate, Timezone};
use crate::text::{
    begins_with, chars_of, decimal, joined, law_decimal_stands_for_the_number,
    law_reading_undoes_writing, parse_unsigned, spells, strip_prefix, unsigned,
};
use std::str::FromStr;
use vstd::prelude::*;

verus! {

// ----- Top-level config ----------------------------------------------------------------------

/// Everything the server is told.
#[derive(Debug)]
pub struct Config {
    pub screens: Vec<ScreenConfig>,
    pub mqtt: Option<MqttConfig>,
}

/// What one screen shows, and when.
#[derive(Debug)]
pub struct ScreenConfig {
    pub name: String,
    pub width: u32,
    pub height: u32,
    /// Public Google Photos album share URL.
    pub share_url: String,
    /// How Google should resize the image to fit the screen.
    pub fit: FitMethod,
    /// What to put around the image if the returned image is smaller than the
    /// screen on either axis.
    pub background: BackgroundMethod,
    /// Optional overlay showing day/date/weather.
    pub infobox: Option<InfoboxConfig>,
    /// Optional overlay showing the device's battery.
    pub battery_indicator: Option<BatteryIndicatorConfig>,
    /// When the screen should reshuffle. If unset, the shuffle persists until the
    /// process restarts.
    pub rotate: Option<Rotate>,
    /// How much later than the next scheduled rotation the device is instructed
    /// to fetch the new image.
    pub wake_delay: Duration,
    /// How long the device waits before it retries after an error.
    pub error_refresh: Duration,
    /// Used for rotation scheduling and the infobox.
    pub timezone: Timezone,
    pub dither: DitherConfig,
    pub publish_battery: bool,
    pub publish_temperature: bool,
    pub publish_humidity: bool,
    pub publish_power: bool,
}

/// How to reach the MQTT broker, and under which topics to publish.
#[derive(Debug)]
pub struct MqttConfig {
    pub broker: String,
    pub port: u16,
    pub client_id: String,
    pub username: Option<String>,
    pub password: Option<String>,
    pub discovery_prefix: String,
    pub state_prefix: String,
}

// ----- Fit / background ------------------------------------------------------------------------

/// Server-side resize strategy; controls the Google URL suffix.
#[derive(Debug, Clone, Copy, PartialEq, Eq, Structural)]
pub enum FitMethod {
    /// Centre-crop to requested size (`-c`).
    Crop,
    /// Content-aware crop to requested size (`-p`).
    SmartCrop,
    /// Stretch to requested size, ignoring aspect ratio (`-s`).
    Resize,
    /// Fit within requested size, preserving aspect ratio (no suffix).
    Contain,
}

impl Default for FitMethod {
    fn default() -> (r: Self)
        ensures
            r == FitMethod::Crop,
    {
        FitMethod::Crop
    }
}

/// A colour as it is configured.
#[derive(Debug, Clone, Copy, PartialEq, Eq, Structural)]
pub struct ColorConfig(pub Color);

impl ColorConfig {
    /// An opaque colour.
    pub fn rgb(r: u8, g: u8, b: u8) -> (c: Self)
        ensures
            c == ColorConfig((Color { r, g, b, a: 255 })),
    {
        ColorConfig(Color::rgb(r, g, b))
    }

    /// A colour with alpha.
    pub fn rgba(r: u8, g: u8, b: u8, a: u8) -> (c: Self)
        ensures
            c == ColorConfig((Color { r, g, b, a })),
    {
        ColorConfig(Color::rgba(r, g, b, a))
    }

    /// The channels without alpha: red, green, blue.
    pub fn to_rgb(self) -> (p: [u8; 3])
        ensures
            p@ == seq![self.0.r, self.0.g, self.0.b],
    {
        self.0.to_rgb()
    }
}

impl FromStr for ColorConfig {
    type Err = ColorError;

    fn from_str(s: &str) -> (r: Result<Self, Self::Err>)
        ensures
            match color_text(s@) {
                Ok(c) => r == Ok::<ColorConfig, ColorError>(ColorConfig(c)),
                Err(e) => r matches Err(found) && found@ == e,
            },
    {
        match Color::from_str(s) {
            Ok(c) => Ok(ColorConfig(c)),
            Err(e) => Err(e),
        }
    }
}

/// Local padding strategy when the returned image is smaller than the screen.
#[derive(Debug, Clone, Copy, PartialEq, Eq, Structural)]
pub enum BackgroundMethod {
    /// Pad with a solid colour. Alpha is ignored.
    Solid(ColorConfig),
    /// Pad with a blurred cover-sized copy of the photo.
    Blur,
}

impl Default for BackgroundMethod {
    fn default() -> (r: Self)
        ensures
            r == BackgroundMethod::Solid(ColorConfig((Color { r: 255, g: 255, b: 255, a: 255 }))),
    {
        BackgroundMethod::Solid(ColorConfig::rgb(255, 255, 255))
    }
}

impl FromStr for BackgroundMethod {
    type Err = ColorError;

    fn from_str(s: &str) -> (r: Result<Self, Self::Err>)
        ensures
            s@ == "blur"@ ==> r == Ok::<BackgroundMethod, ColorError>(BackgroundMethod::Blur),
            s@ != "blur"@ ==> match color_text(s@) {
                Ok(c) => r == Ok::<BackgroundMethod, ColorError>(
                    BackgroundMethod::Solid(ColorConfig(c)),
                ),
                Err(e) => r matches Err(found) && found@ == e,
            },
    {
        let chars = chars_of(s);
        if spells(chars.as_slice(), "blur") {
            return Ok(BackgroundMethod::Blur);
        }
        match ColorConfig::from_str(s) {
            Ok(c) => Ok(BackgroundMethod::Solid(c)),
            Err(e) => Err(e),
        }
    }
}

// ----- Overlays ----------------------------------------------------------------------------------

/// The date and weather overlay.
#[derive(Debug)]
pub struct InfoboxConfig {
    pub position: Position,
    pub background: ColorConfig,
    pub foreground: ColorConfig,
    /// In decimal notation.
    pub latitude: String,
    /// In decimal notation.
    pub longitude: String,
    pub units: Units,
    pub header_layout: HeaderLayout,
    pub weather_layout: WeatherLayout,
}

/// Where an overlay is anchored.
#[derive(Debug, Clone, Copy, PartialEq, Eq, Structural)]
pub enum Position {
    TopLeft,
    Top,
    TopRight,
    Left,
    Right,
    BottomLeft,
    Bottom,
    BottomRight,
}

/// The units of the weather.
#[derive(Debug, Clone, Copy, PartialEq, Eq, Structural)]
pub enum Units {
    Metric,
    Imperial,
}

impl Default for Units {
    fn default() -> (r: Self)
        ensures
            r == Units::Metric,
    {
        Units::Metric
    }
}

/// The day and date lines of the infobox.
#[derive(Debug, Clone, Copy, PartialEq, Eq, Structural)]
pub enum HeaderLayout {
    Off,
    Date,
    Day,
    DayDate,
}

impl Default for HeaderLayout {
    fn default() -> (r: Self)
        ensures
            r == HeaderLayout::DayDate,
    {
        HeaderLayout::DayDate
    }
}

/// The weather panel of the infobox.
#[derive(Debug, Clone, Copy, PartialEq, Eq, Structural)]
pub enum WeatherLayout {
    Off,
    /// A line for today.
    One,
    /// A line for today, and a row of cells for the four days after it.
    OnePlusFour,
    /// A row of five cells, the first for today.
    Five,
}

impl Default for WeatherLayout {
    fn default() -> (r: Self)
        ensures
            r == WeatherLayout::One,
    {
        WeatherLayout::One
    }
}

/// The battery overlay.
#[derive(Debug)]
pub struct BatteryIndicatorConfig {
    pub position: Position,
    pub foreground: ColorConfig,
    pub empty_color: ColorConfig,
    pub style: BatteryStyle,
    pub thresholds: Vec<BatteryThreshold>,
}

/// What the battery overlay shows.
#[derive(Debug, Clone, Copy, PartialEq, Eq, Structural)]
pub enum BatteryStyle {
    /// A battery glyph alone.
    Icon,
    /// The percentage alone.
    Text,
    /// The glyph with the number drawn inside it.
    Both,
}

/// A level colour for low charge.
#[derive(Debug, Clone, Copy, PartialEq, Eq, Structural)]
pub struct BatteryThreshold {
    pub below: u8,
    pub color: ColorConfig,
}

// ----- Dither --------------------------------------------------------------------------------------

/// The noise that is mixed into the dither.
#[derive(Debug, Clone, Copy, PartialEq, Eq, Structural)]
pub enum NoiseSource {
    Off,
    Bayer(Option<usize>),
    InterleavedGradient,
    White,
}

impl Default for NoiseSource {
    fn default() -> (r: Self)
        ensures
            r == NoiseSource::InterleavedGradient,
    {
        NoiseSource::InterleavedGradient
    }
}

/// What a text says as a noise source, or the message why it says none.
pub open spec fn noise_text(s: Seq<char>) -> Result<NoiseSource, Seq<char>> {
    if s == "none"@ {
        Ok(NoiseSource::Off)
    } else if s == "bayer"@ {
        Ok(NoiseSource::Bayer(None))
    } else if s == "ign"@ || s == "interleaved-gradient-noise"@ {
        Ok(NoiseSource::InterleavedGradient)
    } else if s == "white"@ {
        Ok(NoiseSource::White)
    } else if begins_with(s, "bayer:"@) {
        match unsigned(s.skip("bayer:"@.len() as int), usize::MAX as nat) {
            Some(n) => Ok(NoiseSource::Bayer(Some(n as usize))),
            None => Err("invalid bayer depth in `"@ + s + "`"@),
        }
    } else {
        Err("unknown noise source `"@ + s + "`"@)
    }
}

impl FromStr for NoiseSource {
    type Err = String;

    fn from_str(s: &str) -> (r: Result<Self, Self::Err>)
        ensures
            match r {
                Ok(n) => noise_text(s@) == Ok::<NoiseSource, Seq<char>>(n),
                Err(m) => noise_text(s@) == Err::<NoiseSource, Seq<char>>(m@),
            },
    {
        let chars = chars_of(s);
        let c = chars.as_slice();
        if spells(c, "none") {
            Ok(NoiseSource::Off)
        } else if spells(c, "bayer") {
            Ok(NoiseSource::Bayer(None))
        } else if spells(c, "ign") || spells(c, "interleaved-gradient-noise") {
            Ok(NoiseSource::InterleavedGradient)
        } else if spells(c, "white") {
            Ok(NoiseSource::White)
        } else {
            match strip_prefix(c, "bayer:") {
                Some(depth) => match parse_unsigned(depth, usize::MAX as u64) {
                    Some(n) => Ok(NoiseSource::Bayer(Some(n as usize))),
                    None => Err(joined(joined("invalid bayer depth in `".to_owned(), s), "`")),
                },
                None => Err(joined(joined("unknown noise source `".to_owned(), s), "`")),
            }
        }
    }
}

/// How colours are decomposed into palette colours.
#[derive(Debug, Clone, Copy, PartialEq, Eq, Structural)]
pub enum Strategy {
    OctahedronClosest,
    OctahedronFurthest,
    NaiveMix,
    NaiveDominant,
}

impl Default for Strategy {
    fn default() -> (r: Self)
        ensures
            r == Strategy::OctahedronClosest,
    {
        Strategy::OctahedronClosest
    }
}

/// How the dither error is spread.
#[derive(Debug, Clone, Copy, PartialEq, Eq, Structural)]
pub enum DiffuseMethod {
    Off,
    FloydSteinberg,
    JarvisJudiceAndNinke,
    Atkinson,
    Sierra,
}

impl Default for DiffuseMethod {
    fn default() -> (r: Self)
        ensures
            r == DiffuseMethod::FloydSteinberg,
    {
        DiffuseMethod::FloydSteinberg
    }
}

/// A set of display colours.
#[derive(Debug, Clone, Copy, PartialEq, Eq, Structural)]
pub enum Palette {
    Naive,
    Spectra6,
    Epdoptimize,
}

impl Default for Palette {
    fn default() -> (r: Self)
        ensures
            r == Palette::Spectra6,
    {
        Palette::Spectra6
    }
}

/// The channels of the palette's colours: black, white, yellow, red, blue, green.
pub open spec fn palette_channels(p: Palette) -> Seq<Seq<u8>> {
    match p {
        Palette::Naive => seq![
            seq![0, 0, 0],
            seq![255, 255, 255],
            seq![255, 255, 0],
            seq![255, 0, 0],
            seq![0, 0, 255],
            seq![0, 255, 0],
        ],
        Palette::Spectra6 => seq![
            seq![58, 0, 66],
            seq![179, 208, 200],
            seq![215, 233, 0],
            seq![151, 38, 44],
            seq![61, 38, 152],
            seq![96, 104, 86],
        ],
        Palette::Epdoptimize => seq![
            seq![0x19, 0x1e, 0x21],
            seq![0xe8, 0xe8, 0xe8],
            seq![0xef, 0xde, 0x44],
            seq![0xb2, 0x13, 0x18],
            seq![0x21, 0x57, 0xba],
            seq![0x12, 0x5f, 0x20],
        ],
    }
}

fn push_color(out: &mut Vec<[u8; 3]>, r: u8, g: u8, b: u8)
    ensures
        final(out)@.map_values(|c: [u8; 3]| c@) == old(out)@.map_values(|c: [u8; 3]| c@).push(
            seq![r, g, b],
        ),
{
    let c: [u8; 3] = [r, g, b];
    assert(c@ == seq![r, g, b]);
    let ghost before = out@.map_values(|c: [u8; 3]| c@);
    out.push(c);
    assert(out@.map_values(|c: [u8; 3]| c@) == before.push(c@));
}

impl Palette {
    /// The palette's colours, in the order of their indices.
    pub fn colors(&self) -> (r: Vec<[u8; 3]>)
        ensures
            r@.map_values(|c: [u8; 3]| c@) == palette_channels(*self),
    {
        let mut out: Vec<[u8; 3]> = Vec::new();
        assert(out@.map_values(|c: [u8; 3]| c@) == Seq::<Seq<u8>>::empty());
        match self {
            Palette::Naive => {
                push_color(&mut out, 0, 0, 0);
                push_color(&mut out, 255, 255, 255);
                push_color(&mut out, 255, 255, 0);
                push_color(&mut out, 255, 0, 0);
                push_color(&mut out, 0, 0, 255);
                push_color(&mut out, 0, 255, 0);
            },
            Palette::Spectra6 => {
                push_color(&mut out, 58, 0, 66);
                push_color(&mut out, 179, 208, 200);
                push_color(&mut out, 215, 233, 0);
                push_color(&mut out, 151, 38, 44);
                push_color(&mut out, 61, 38, 152);
                push_color(&mut out, 96, 104, 86);
            },
            Palette::Epdoptimize => {
                push_color(&mut out, 0x19, 0x1e, 0x21);
                push_color(&mut out, 0xe8, 0xe8, 0xe8);
                push_color(&mut out, 0xef, 0xde, 0x44);
                push_color(&mut out, 0xb2, 0x13, 0x18);
                push_color(&mut out, 0x21, 0x57, 0xba);
                push_color(&mut out, 0x12, 0x5f, 0x20);
            },
        }
        assert(out@.map_values(|c: [u8; 3]| c@) =~= palette_channels(*self));
        out
    }
}

/// How the image is reduced to the display's colours.
#[derive(Debug, Clone, Copy, PartialEq, Eq, Structural)]
pub struct DitherConfig {
    pub noise: NoiseSource,
    pub strategy: Strategy,
    pub diffuse: DiffuseMethod,
    pub dither_palette: Palette,
    pub output_palette: Palette,
}

impl Default for DitherConfig {
    fn default() -> (r: Self)
        ensures
            r.noise == NoiseSource::InterleavedGradient,
            r.strategy == Strategy::OctahedronClosest,
            r.diffuse == DiffuseMethod::FloydSteinberg,
            r.dither_palette == Palette::Spectra6,
            r.output_palette == Palette::Spectra6,
    {
        DitherConfig {
            noise: NoiseSource::default(),
            strategy: Strategy::default(),
            diffuse: DiffuseMethod::default(),
            dither_palette: Palette::default(),
            output_palette: Palette::default(),
        }
    }
}

// ----- Laws ------------------------------------------------------------------------------------------

/// The name of each noise, and a depth in decimal for a Bayer matrix of that depth.
pub proof fn law_noise_is_named(n: nat)
    ensures
        noise_text("none"@) == Ok::<NoiseSource, Seq<char>>(NoiseSource::Off),
        noise_text("bayer"@) == Ok::<NoiseSource, Seq<char>>(NoiseSource::Bayer(None)),
        noise_text("ign"@) == Ok::<NoiseSource, Seq<char>>(NoiseSource::InterleavedGradient),
        noise_text("interleaved-gradient-noise"@) == Ok::<NoiseSource, Seq<char>>(
            NoiseSource::InterleavedGradient,
        ),
        noise_text("white"@) == Ok::<NoiseSource, Seq<char>>(NoiseSource::White),
        n <= usize::MAX ==> noise_text("bayer:"@ + decimal(n)) == Ok::<NoiseSource, Seq<char>>(
            NoiseSource::Bayer(Some(n as usize)),
        ),
        n > usize::MAX ==> noise_text("bayer:"@ + decimal(n)) is Err,
{
    reveal_strlit("none");
    reveal_strlit("bayer");
    reveal_strlit("ign");
    reveal_strlit("interleaved-gradient-noise");
    reveal_strlit("white");
    reveal_strlit("bayer:");
    assert("none"@[0] != "bayer"@[0]);
    assert("ign"@.len() != "none"@.len() && "ign"@.len() != "bayer"@.len());
    assert("interleaved-gradient-noise"@.len() == 26);
    assert("white"@[0] != "bayer"@[0]);
    let s = "bayer:"@ + decimal(n);
    law_decimal_stands_for_the_number(n);
    law_reading_undoes_writing(n, usize::MAX as nat);
    assert(s.skip("bayer:"@.len() as int) == decimal(n));
    assert(s.take("bayer:"@.len() as int) == "bayer:"@);
    assert(s.len() > 6);
    assert(s[0] == 'b' && s[5] == ':');
    assert("none"@.len() == 4 && "bayer"@.len() == 5 && "ign"@.len() == 3 && "white"@.len() == 5);
    assert("interleaved-gradient-noise"@[0] == 'i');
}

} // verus!
