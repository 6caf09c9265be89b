use chrono::{TimeZone, Utc};
use epd_photoframe_server::clock::UtcTime;
use epd_photoframe_server::config::{
    ColorConfig, HeaderLayout, InfoboxConfig, Position, Units, WeatherLayout,
};
use epd_photoframe_server::drawable::{BoxStyle, Drawable, Node};
use epd_photoframe_server::infobox::{
    date_text, forecast_days, month_name, short_weekday_name, weekday_name, wmo_icon, Infobox,
    ReadyInfobox,
};
use epd_photoframe_server::schedule::{LocalDate, Timezone};
use epd_photoframe_server::weather::DailyWeather;

fn cfg() -> InfoboxConfig {
    InfoboxConfig {
        position: Position::BottomLeft,
        background: ColorConfig::rgba(255, 255, 255, 220),
        foreground: ColorConfig::rgb(0, 0, 0),
        latitude: "0".to_string(),
        longitude: "0".to_string(),
        units: Units::Metric,
        header_layout: HeaderLayout::DayDate,
        weather_layout: WeatherLayout::One,
    }
}

fn with_layouts(header: HeaderLayout, weather_layout: WeatherLayout) -> InfoboxConfig {
    InfoboxConfig {
        header_layout: header,
        weather_layout,
        ..cfg()
    }
}

fn utc() -> Timezone {
    Timezone::parse("UTC").unwrap()
}

fn noon() -> UtcTime {
    let t = Utc.with_ymd_and_hms(2026, 4, 20, 12, 0, 0).unwrap();
    UtcTime::from_timestamp(t.timestamp(), 0).unwrap()
}

fn day(min: &str, max: &str, code: u32) -> DailyWeather {
    DailyWeather {
        temperature_min: min.to_string(),
        temperature_max: max.to_string(),
        weather_code: code,
    }
}

fn sample_weather() -> DailyWeather {
    day("8", "18", 3)
}

/// 5 days of sample weather: today + 4 future days.
fn sample_forecast() -> Vec<DailyWeather> {
    vec![
        day("8", "18", 1),
        day("6", "14", 3),
        day("9", "19", 0),
        day("10", "16", 61),
        day("8", "13", 80),
    ]
}

fn ready<'a>(
    cfg: &'a InfoboxConfig,
    tz: &'a Timezone,
    weather: Vec<DailyWeather>,
    weather_failed: bool,
) -> ReadyInfobox<'a> {
    ReadyInfobox {
        cfg,
        now: noon(),
        tz,
        weather,
        weather_failed,
    }
}

/// What a node shows, and its size in hundredths of the text size.
fn shown(node: &Node) -> (String, u32) {
    match &node.drawable {
        Some(Drawable::Text { content, size, .. }) => (content.clone(), *size),
        Some(Drawable::Icon { glyph, size, .. }) => (glyph.to_string(), *size),
        Some(Drawable::IconText { icon, text, text_size, .. }) => {
            (format!("{icon} {text}"), *text_size)
        }
        _ => (String::new(), 0),
    }
}

fn lines(node: &Node) -> Vec<String> {
    node.children.iter().map(|c| shown(c).0).collect()
}

#[test]
fn renders_without_panicking() {
    let (cfg, tz) = (cfg(), utc());
    let scene = ready(&cfg, &tz, vec![sample_weather()], false).scene().unwrap();
    // The box is painted over what was there.
    assert!(matches!(
        scene.drawable,
        Some(Drawable::Background { color, .. }) if color.0.a > 0
    ));
}

#[test]
fn renders_with_weather() {
    let (cfg, tz) = (with_layouts(HeaderLayout::DayDate, WeatherLayout::One), utc());
    let r = ready(&cfg, &tz, vec![sample_weather()], false);
    let scene = r.scene().unwrap();
    assert_eq!(
        lines(&scene),
        vec!["Monday", "20 April 2026", "\u{F013} 8–18°C"]
    );
    assert_eq!(scene.style, BoxStyle::Stack { padding: 60, gap: 20 });
    assert!(matches!(
        scene.drawable,
        Some(Drawable::Background { color, radius: 60 }) if color == cfg.background
    ));
    assert!(matches!(
        &scene.children[2].drawable,
        Some(Drawable::IconText { icon_size: 130, gap: 30, text_size: 100, .. })
    ));
}

#[test]
fn renders_without_weather() {
    let (cfg, tz) = (with_layouts(HeaderLayout::DayDate, WeatherLayout::One), utc());
    let r = ready(&cfg, &tz, Vec::new(), true);
    assert!(r.degraded());
    assert_eq!(
        lines(&r.scene().unwrap()),
        vec!["Monday", "20 April 2026", "\u{F07B} Weather error"]
    );
}

#[test]
fn renders_header_only() {
    let (cfg, tz) = (with_layouts(HeaderLayout::DayDate, WeatherLayout::Off), utc());
    let r = ready(&cfg, &tz, Vec::new(), false);
    // Weather not requested → not degraded even though there is none.
    assert!(!r.degraded());
    assert_eq!(lines(&r.scene().unwrap()), vec!["Monday", "20 April 2026"]);
}

#[test]
fn renders_weather_only() {
    let (cfg, tz) = (with_layouts(HeaderLayout::Off, WeatherLayout::One), utc());
    let r = ready(&cfg, &tz, vec![sample_weather()], false);
    assert_eq!(lines(&r.scene().unwrap()), vec!["\u{F013} 8–18°C"]);
}

#[test]
fn renders_day_only_header() {
    let (cfg, tz) = (with_layouts(HeaderLayout::Day, WeatherLayout::One), utc());
    let r = ready(&cfg, &tz, vec![sample_weather()], false);
    assert_eq!(lines(&r.scene().unwrap()), vec!["Monday", "\u{F013} 8–18°C"]);
}

#[test]
fn renders_date_only_header() {
    let (cfg, tz) = (with_layouts(HeaderLayout::Date, WeatherLayout::One), utc());
    let r = ready(&cfg, &tz, vec![sample_weather()], false);
    assert_eq!(
        lines(&r.scene().unwrap()),
        vec!["20 April 2026", "\u{F013} 8–18°C"]
    );
}

#[test]
fn empty_layout_is_a_noop() {
    let (cfg, tz) = (with_layouts(HeaderLayout::Off, WeatherLayout::Off), utc());
    assert!(ready(&cfg, &tz, Vec::new(), false).scene().is_none());
}

#[test]
fn renders_one_plus_four() {
    let (cfg, tz) = (
        with_layouts(HeaderLayout::DayDate, WeatherLayout::OnePlusFour),
        utc(),
    );
    let scene = ready(&cfg, &tz, sample_forecast(), false).scene().unwrap();
    assert_eq!(scene.children.len(), 4);
    assert_eq!(shown(&scene.children[2]).0, "\u{F00C} 8–18°C");
    let row = &scene.children[3];
    assert_eq!(row.style, BoxStyle::Row { gap: 20, top: 7 });
    assert!(row.drawable.is_none());
    let cells: Vec<Vec<String>> = row.children.iter().map(lines).collect();
    assert_eq!(
        cells,
        vec![
            vec!["Tue", "\u{F013}", "14°C", "6°C"],
            vec!["Wed", "\u{F00D}", "19°C", "9°C"],
            vec!["Thu", "\u{F019}", "16°C", "10°C"],
            vec!["Fri", "\u{F01A}", "13°C", "8°C"],
        ]
    );
    let cell = &row.children[0];
    assert_eq!(cell.style, BoxStyle::Cell);
    let sizes: Vec<u32> = cell.children.iter().map(|c| shown(c).1).collect();
    assert_eq!(sizes, vec![73, 93, 53, 53]);
    let tops: Vec<BoxStyle> = cell.children.iter().map(|c| c.style).collect();
    assert_eq!(
        tops,
        vec![
            BoxStyle::Centred { top: 0 },
            BoxStyle::Centred { top: 13 },
            BoxStyle::Centred { top: 10 },
            BoxStyle::Centred { top: 7 },
        ]
    );
}

#[test]
fn covers_all_wmo_categories() {
    for code in [
        0u32, 1, 2, 3, 45, 48, 51, 55, 61, 66, 71, 77, 80, 95, 96, 999,
    ] {
        let _ = wmo_icon(Some(code));
    }
    let _ = wmo_icon(None);
}

#[test]
fn infobox_covers_all_wmo_categories() {
    let glyphs: Vec<char> = [0u32, 1, 2, 3, 45, 48, 51, 55, 61, 66, 71, 77, 80, 95, 96, 999]
        .iter()
        .map(|code| wmo_icon(Some(*code)))
        .collect();
    assert_eq!(
        glyphs,
        vec![
            '\u{F00D}', '\u{F00C}', '\u{F002}', '\u{F013}', '\u{F014}', '\u{F014}', '\u{F01C}',
            '\u{F01A}', '\u{F019}', '\u{F017}', '\u{F01B}', '\u{F076}', '\u{F01A}', '\u{F01E}',
            '\u{F01E}', '\u{F07B}',
        ]
    );
    assert_eq!(wmo_icon(None), '\u{F07B}');
}

#[test]
fn row_needs_two_days() {
    let (cfg, tz) = (
        with_layouts(HeaderLayout::Off, WeatherLayout::OnePlusFour),
        utc(),
    );
    let one = ready(&cfg, &tz, vec![sample_weather()], false).scene().unwrap();
    assert_eq!(one.children.len(), 1);
    let none = ready(&cfg, &tz, Vec::new(), true).scene().unwrap();
    assert_eq!(lines(&none), vec!["\u{F07B} Weather error"]);
}

#[test]
fn five_is_a_row_from_today_on() {
    let (cfg, tz) = (with_layouts(HeaderLayout::DayDate, WeatherLayout::Five), utc());
    let scene = ready(&cfg, &tz, sample_forecast(), false).scene().unwrap();
    assert_eq!(scene.children.len(), 3);
    let row = &scene.children[2];
    assert_eq!(row.style, BoxStyle::Row { gap: 17, top: 0 });
    assert!(row.drawable.is_none());
    let cells: Vec<Vec<String>> = row.children.iter().map(lines).collect();
    assert_eq!(
        cells,
        vec![
            vec!["Mon", "\u{F00C}", "18°C", "8°C"],
            vec!["Tue", "\u{F013}", "14°C", "6°C"],
            vec!["Wed", "\u{F00D}", "19°C", "9°C"],
            vec!["Thu", "\u{F019}", "16°C", "10°C"],
            vec!["Fri", "\u{F01A}", "13°C", "8°C"],
        ]
    );
    let sizes: Vec<u32> = row.children[4].children.iter().map(|c| shown(c).1).collect();
    assert_eq!(sizes, vec![60, 80, 47, 47]);
}

#[test]
fn five_without_weather_shows_none() {
    let (cfg, tz) = (with_layouts(HeaderLayout::Day, WeatherLayout::Five), utc());
    let scene = ready(&cfg, &tz, Vec::new(), true).scene().unwrap();
    assert_eq!(lines(&scene), vec!["Monday"]);
    let (cfg, tz) = (with_layouts(HeaderLayout::Off, WeatherLayout::Five), utc());
    let failed = ready(&cfg, &tz, Vec::new(), true);
    assert!(failed.scene().is_none());
    assert!(failed.degraded());
    let one = ready(&cfg, &tz, vec![sample_weather()], false).scene().unwrap();
    assert_eq!(one.children[0].children.len(), 1);
}

#[test]
fn weather_is_asked_for_where_it_is_shown() {
    let tz = Timezone::parse("Europe/Amsterdam").unwrap();
    let off = Infobox::new(with_layouts(HeaderLayout::Day, WeatherLayout::Off));
    assert!(off.weather_request(&tz).is_none());
    assert!(!off.ready(noon(), &tz, None).degraded());
    assert!(off.ready(noon(), &tz, Some(sample_forecast())).weather.is_empty());
    let five = Infobox::new(InfoboxConfig {
        latitude: "52.37".to_string(),
        longitude: "4.9".to_string(),
        units: Units::Imperial,
        ..with_layouts(HeaderLayout::Day, WeatherLayout::OnePlusFour)
    });
    assert_eq!(
        five.weather_request(&tz).unwrap(),
        "https://api.open-meteo.com/v1/forecast?latitude=52.37&longitude=4.9\
         &daily=temperature_2m_max,temperature_2m_min,weather_code\
         &forecast_days=5&timezone=Europe/Amsterdam\
         &temperature_unit=fahrenheit&wind_speed_unit=mph"
    );
    assert!(five.ready(noon(), &tz, None).degraded());
    let ready = five.ready(noon(), &tz, Some(sample_forecast()));
    assert!(!ready.degraded());
    assert_eq!(ready.weather.len(), 5);
    let mut longer = sample_forecast();
    longer.push(sample_weather());
    assert_eq!(five.ready(noon(), &tz, Some(longer)).weather.len(), 5);
    let one = Infobox::new(with_layouts(HeaderLayout::Day, WeatherLayout::One));
    let today = one.ready(noon(), &tz, Some(sample_forecast()));
    assert_eq!(today.weather.len(), 1);
    assert_eq!(today.weather[0].temperature_max, sample_forecast()[0].temperature_max);
}

#[test]
fn days_per_layout() {
    assert_eq!(forecast_days(WeatherLayout::Off), 0);
    assert_eq!(forecast_days(WeatherLayout::One), 1);
    assert_eq!(forecast_days(WeatherLayout::OnePlusFour), 5);
    assert_eq!(forecast_days(WeatherLayout::Five), 5);
}

#[test]
fn names_agree_with_the_calendar() {
    for d in 0..400i64 {
        let t = Utc.with_ymd_and_hms(2026, 1, 1, 0, 0, 0).unwrap() + chrono::Duration::days(d);
        let date = utc().date(UtcTime::from_timestamp(t.timestamp(), 0).unwrap());
        assert_eq!(weekday_name(date.weekday), t.format("%A").to_string());
        assert_eq!(short_weekday_name(date.weekday), t.format("%a").to_string());
        assert_eq!(month_name(date.month), t.format("%B").to_string());
        assert_eq!(date_text(date), t.format("%-d %B %Y").to_string());
    }
    let date = LocalDate { year: -44, month: 3, day: 15, weekday: 0 };
    assert_eq!(date_text(date), "15 March -44");
}

#[test]
fn temperature_suffixes() {
    assert_eq!(Units::Metric.temperature_suffix(), "°C");
    assert_eq!(Units::Imperial.temperature_suffix(), "°F");
}
