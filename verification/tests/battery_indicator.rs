use epd_photoframe_server::battery_indicator::{
    apply, effective_fg, intersect_mask, overlay, percentage_text, Stroke,
};
use epd_photoframe_server::config::{
    BatteryIndicatorConfig, BatteryStyle, BatteryThreshold, ColorConfig, Position,
};

fn cfg(style: BatteryStyle) -> BatteryIndicatorConfig {
    BatteryIndicatorConfig {
        position: Position::TopLeft,
        foreground: ColorConfig::rgb(255, 255, 255),
        empty_color: ColorConfig::rgba(0, 0, 0, 200),
        style,
        thresholds: vec![],
    }
}

#[test]
fn renders_icon_only() {
    assert!(!apply(&cfg(BatteryStyle::Icon), 75).is_empty());
}

#[test]
fn renders_text_only() {
    assert!(!apply(&cfg(BatteryStyle::Text), 50).is_empty());
}

#[test]
fn renders_both() {
    assert!(!apply(&cfg(BatteryStyle::Both), 100).is_empty());
}

#[test]
fn clamps_above_100() {
    let strokes = apply(&cfg(BatteryStyle::Both), 250);
    assert_eq!(
        format!("{strokes:?}"),
        format!("{:?}", apply(&cfg(BatteryStyle::Both), 100))
    );
}

#[test]
fn threshold_picks_lowest_matching() {
    let red = ColorConfig::rgb(255, 0, 0);
    let yellow = ColorConfig::rgb(255, 192, 0);
    let white = ColorConfig::rgb(255, 255, 255);
    let mut c = cfg(BatteryStyle::Icon);
    c.foreground = white;
    c.thresholds = vec![
        BatteryThreshold { below: 20, color: yellow },
        BatteryThreshold { below: 5, color: red },
    ];
    assert_eq!(effective_fg(&c, 100), white);
    assert_eq!(effective_fg(&c, 50), white);
    assert_eq!(effective_fg(&c, 20), white); // not below 20
    assert_eq!(effective_fg(&c, 19), yellow);
    assert_eq!(effective_fg(&c, 5), yellow); // not below 5
    assert_eq!(effective_fg(&c, 4), red);
    assert_eq!(effective_fg(&c, 0), red);
}

#[test]
fn equal_thresholds_take_the_first() {
    let mut c = cfg(BatteryStyle::Icon);
    c.thresholds = vec![
        BatteryThreshold { below: 30, color: ColorConfig::rgb(1, 1, 1) },
        BatteryThreshold { below: 10, color: ColorConfig::rgb(2, 2, 2) },
        BatteryThreshold { below: 10, color: ColorConfig::rgb(3, 3, 3) },
    ];
    assert_eq!(effective_fg(&c, 9), ColorConfig::rgb(2, 2, 2));
}

#[test]
fn icon_has_body_cap_and_level() {
    let white = ColorConfig::rgb(255, 255, 255);
    let dark = ColorConfig::rgba(0, 0, 0, 200);
    let strokes = apply(&cfg(BatteryStyle::Icon), 75);
    assert_eq!(strokes.len(), 3);
    assert!(matches!(strokes[0], Stroke::Body(c) if c == dark));
    assert!(matches!(strokes[1], Stroke::Cap(c) if c == dark));
    assert!(matches!(strokes[2], Stroke::Level(75, c) if c == white));
}

#[test]
fn full_battery_has_a_bright_cap() {
    let white = ColorConfig::rgb(255, 255, 255);
    let strokes = apply(&cfg(BatteryStyle::Icon), 100);
    assert!(matches!(strokes[1], Stroke::Cap(c) if c == white));
    assert!(matches!(strokes[2], Stroke::Level(100, c) if c == white));
}

#[test]
fn empty_battery_has_no_level() {
    let strokes = apply(&cfg(BatteryStyle::Both), 0);
    assert_eq!(strokes.len(), 3);
    assert!(matches!(&strokes[2], Stroke::OverBody(t, _) if t == "0"));
}

#[test]
fn invisible_colours_are_not_painted() {
    let mut c = cfg(BatteryStyle::Icon);
    c.empty_color = ColorConfig::rgba(0, 0, 0, 0);
    let strokes = apply(&c, 40);
    assert_eq!(strokes.len(), 1);
    assert!(matches!(strokes[0], Stroke::Level(40, _)));
}

#[test]
fn text_has_a_percent_sign_and_the_number_inside_has_none() {
    assert_eq!(percentage_text(72), "72%");
    let line = apply(&cfg(BatteryStyle::Text), 50);
    assert_eq!(line.len(), 1);
    assert!(matches!(&line[0], Stroke::Line(t, _) if t == "50%"));
    let both = apply(&cfg(BatteryStyle::Both), 72);
    assert_eq!(both.len(), 5);
    let white = ColorConfig::rgb(255, 255, 255);
    let dark = ColorConfig::rgba(0, 0, 0, 200);
    assert!(matches!(&both[3], Stroke::OverBody(t, c) if t == "72" && *c == white));
    assert!(matches!(&both[4], Stroke::OverLevel(t, 72, c) if t == "72" && *c == dark));
}

#[test]
fn masks_multiply() {
    let mut mask: Vec<u8> = vec![255, 255, 0, 128, 200, 7];
    intersect_mask(&mut mask, &[255, 0, 255, 128, 100]);
    assert_eq!(mask, vec![255, 0, 0, 64, 78, 7]);
}

#[test]
fn overlay_needs_a_section_and_a_reading() {
    let section = Some(cfg(BatteryStyle::Text));
    assert!(overlay(&None, Some(50)).is_none());
    assert!(overlay(&section, None).is_none());
    let strokes = overlay(&section, Some(101)).unwrap();
    assert!(matches!(&strokes[0], Stroke::Line(t, _) if t == "100%"));
}
