use epd_photoframe_server::clock::{Duration, UtcTime};
use epd_photoframe_server::config::{BackgroundMethod, DitherConfig, FitMethod, ScreenConfig};
use epd_photoframe_server::request::{
    asks_fresh, cursor_step, find_screen, parse_action, refresh_header, refresh_target, Action,
    AppError,
};
use epd_photoframe_server::schedule::Timezone;

fn screen(name: &str) -> ScreenConfig {
    ScreenConfig {
        name: name.to_string(),
        width: 800,
        height: 480,
        share_url: "https://example.com".to_string(),
        fit: FitMethod::default(),
        background: BackgroundMethod::default(),
        infobox: None,
        battery_indicator: None,
        rotate: None,
        wake_delay: Duration::zero(),
        error_refresh: Duration::from_secs(3600),
        timezone: Timezone::parse("UTC").unwrap(),
        dither: DitherConfig::default(),
        publish_battery: true,
        publish_temperature: false,
        publish_humidity: false,
        publish_power: false,
    }
}

fn at(secs: i64) -> UtcTime {
    UtcTime::from_timestamp(secs, 0).unwrap()
}

#[test]
fn actions() {
    assert_eq!(parse_action("next"), Some(Action::Next));
    assert_eq!(parse_action("previous"), Some(Action::Previous));
    assert_eq!(parse_action("refresh"), Some(Action::Refresh));
    assert_eq!(parse_action("Next"), None);
    assert_eq!(cursor_step(Some(Action::Next)), 1);
    assert_eq!(cursor_step(Some(Action::Previous)), -1);
    assert_eq!(cursor_step(Some(Action::Refresh)), 0);
    assert_eq!(cursor_step(None), 0);
    assert!(asks_fresh(Some(Action::Refresh)));
    assert!(!asks_fresh(Some(Action::Next)));
    assert!(!asks_fresh(None));
}

#[test]
fn unknown_screens_are_not_found() {
    let screens = [screen("a"), screen("b"), screen("a")];
    assert_eq!(find_screen(&screens, "b").unwrap(), 1);
    assert_eq!(find_screen(&screens, "a").unwrap(), 2);
    let e = find_screen(&screens, "c").unwrap_err();
    assert_eq!(e.status(), 404);
    assert_eq!(e.body(), "screen `c` not found");
    let e = AppError::Internal("boom".to_string());
    assert_eq!(e.status(), 500);
    assert_eq!(e.body(), "boom");
}

#[test]
fn devices_come_back_after_the_rotation() {
    let hour = Duration::from_secs(3600);
    let delay = Duration::from_secs(600);
    let target = |retry: bool, next: Option<UtcTime>| refresh_target(retry, hour, delay, next, at(1000));
    assert_eq!(target(false, None), None);
    assert_eq!(target(false, Some(at(90_000))), Some(at(90_600)));
    assert_eq!(target(true, None), Some(at(4600)));
    assert_eq!(target(true, Some(at(90_000))), Some(at(4600)));
    assert_eq!(target(true, Some(at(1100))), Some(at(1700)));
}

#[test]
fn refresh_names_seconds_and_path() {
    let now = UtcTime::from_timestamp(1000, 1).unwrap();
    assert_eq!(refresh_header(at(44_200), now, "/screen/x"), "43200; url=/screen/x");
    assert_eq!(refresh_header(at(10), now, "/screen/x"), "0; url=/screen/x");
}

#[test]
fn early_wakes_land_after_the_rotation() {
    let delay = Duration::from_secs(3600);
    let (now, rotation) = (UtcTime::from_timestamp(50_400, 7).unwrap(), at(93_600));
    let target = refresh_target(false, delay, delay, Some(rotation), now).unwrap();
    let header = refresh_header(target, now, "/");
    let seconds: i64 = header.split(';').next().unwrap().parse().unwrap();
    // Half an hour early on a twelve-hour sleep.
    assert!(now.timestamp() + seconds - 1800 >= rotation.timestamp());
    let exact = refresh_target(false, delay, Duration::zero(), Some(rotation), now);
    assert_eq!(exact, Some(rotation));
}
