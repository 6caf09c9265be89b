use std::collections::HashSet;

use chrono::{DateTime, TimeZone, Utc};
use chrono_tz::Tz;
use epd_photoframe_server::album::new_indices_in;
use epd_photoframe_server::clock::{
    error_refresh_target, seconds_until, wake_target, Duration, UtcTime,
};
use epd_photoframe_server::config::{BackgroundMethod, DitherConfig, FitMethod, ScreenConfig};
use epd_photoframe_server::schedule::{Rotate, Timezone};
use epd_photoframe_server::screen_state::{
    index_in, resolve_index, shuffled_album, snap_to_new, ScreenState,
};
use rand::rngs::StdRng;
use rand::seq::SliceRandom;
use rand::SeedableRng;

fn tz() -> Tz {
    "Europe/Amsterdam".parse().unwrap()
}

fn config(rotate: Option<(&str, &str)>) -> ScreenConfig {
    ScreenConfig {
        name: "x".to_string(),
        width: 800,
        height: 480,
        share_url: "https://example.com".to_string(),
        fit: FitMethod::default(),
        background: BackgroundMethod::default(),
        infobox: None,
        battery_indicator: None,
        rotate: rotate.map(|(key, text)| Rotate::parse(key, text).unwrap()),
        wake_delay: Duration::zero(),
        error_refresh: Duration::from_secs(3600),
        timezone: Timezone::parse("Europe/Amsterdam").unwrap(),
        dither: DitherConfig::default(),
        publish_battery: true,
        publish_temperature: false,
        publish_humidity: false,
        publish_power: false,
    }
}

fn utc(t: DateTime<Utc>) -> UtcTime {
    UtcTime::from_timestamp(t.timestamp(), t.timestamp_subsec_nanos()).unwrap()
}

fn local(y: i32, mo: u32, d: u32, h: u32, mi: u32, s: u32) -> UtcTime {
    utc(tz().with_ymd_and_hms(y, mo, d, h, mi, s).unwrap().with_timezone(&Utc))
}

#[test]
fn resolve_index_is_a_permutation() {
    let seen: HashSet<usize> = (0..10).map(|c| resolve_index(42, c, 10)).collect();
    assert_eq!(seen.len(), 10);
}

#[test]
fn resolve_index_wraps_negative_cursor() {
    assert_eq!(resolve_index(42, -1, 5), resolve_index(42, 4, 5));
}

#[test]
fn first_call_always_rotates() {
    let cfg = config(Some(("cron", "0 0 2 * * *")));
    let mut s = ScreenState::new(&cfg);
    assert_eq!(s.seed(), 0);
    assert!(s.last_rotation().is_none());
    let rotated = s.maybe_rotate(utc(Utc::now()));
    assert!(rotated);
    assert_ne!(s.seed(), 0);
    assert!(s.last_rotation().is_some());
}

#[test]
fn first_call_rotates_even_without_schedule() {
    let cfg = config(None);
    let mut s = ScreenState::new(&cfg);
    let rotated = s.maybe_rotate(utc(Utc::now()));
    assert!(rotated);
    assert!(s.last_rotation().is_some());
}

#[test]
fn cron_rotate_fires_after_next() {
    let cfg = config(Some(("cron", "0 0 2 * * *")));
    // Initialise at 20 Apr 12:00 local (first call always rotates).
    let start = local(2026, 4, 20, 12, 0, 0);
    let mut s = ScreenState::new(&cfg);
    s.maybe_rotate(start);
    let seed_before = s.seed();
    s.advance(3);
    // Advance past 02:00 next day — should fire another rotation.
    let later = local(2026, 4, 21, 3, 0, 0);
    let rotated = s.maybe_rotate(later);
    assert!(rotated);
    assert_eq!(s.cursor(), 0);
    assert_ne!(s.seed(), seed_before);
    assert_eq!(s.last_rotation(), Some(later));
}

#[test]
fn cron_rotate_noop_before_next() {
    let cfg = config(Some(("cron", "0 0 2 * * *")));
    let start = local(2026, 4, 21, 3, 0, 0);
    let mut s = ScreenState::new(&cfg);
    s.maybe_rotate(start); // initialise; next trigger is 22 Apr 02:00
    s.advance(5);
    let snap = (s.seed(), s.cursor(), s.last_rotation());
    // 10 h later is still 21 Apr 13:00, before the 22 Apr 02:00 trigger.
    let now = start.plus(Duration::from_secs(10 * 3600)).unwrap();
    let rotated = s.maybe_rotate(now);
    assert!(!rotated);
    assert_eq!((s.seed(), s.cursor(), s.last_rotation()), snap);
}

#[test]
fn no_schedule_means_no_rotation_after_init() {
    let cfg = config(None);
    let mut s = ScreenState::new(&cfg);
    s.maybe_rotate(utc(Utc::now())); // initial rotation
    s.advance(7);
    let snap = (s.seed(), s.cursor(), s.last_rotation());
    let rotated = s.maybe_rotate(utc(Utc::now() + chrono::Duration::days(365)));
    assert!(!rotated);
    assert_eq!((s.seed(), s.cursor(), s.last_rotation()), snap);
}

#[test]
fn seconds_until_rounds_up() {
    let now = Utc::now();
    assert_eq!(seconds_until(utc(now), utc(now)), 0);
    assert_eq!(
        seconds_until(utc(now + chrono::Duration::milliseconds(1)), utc(now)),
        1
    );
    assert_eq!(
        seconds_until(utc(now + chrono::Duration::milliseconds(1000)), utc(now)),
        1
    );
    assert_eq!(
        seconds_until(utc(now + chrono::Duration::milliseconds(1001)), utc(now)),
        2
    );
    assert_eq!(seconds_until(utc(now - chrono::Duration::seconds(5)), utc(now)), 0);
}

#[test]
fn error_refresh_target_no_schedule_uses_base() {
    let now = Utc::now();
    let t = error_refresh_target(Duration::from_secs(3600), Duration::zero(), None, utc(now));
    assert_eq!(t, utc(now + chrono::Duration::hours(1)));
}

#[test]
fn error_refresh_target_clamps_to_wake_target_when_sooner() {
    let now = Utc::now();
    // Next rotation in 10 min, wake_delay 5 min → cap is 15 min.
    let next_rotation = now + chrono::Duration::minutes(10);
    let t = error_refresh_target(
        Duration::from_secs(3600),
        Duration::from_secs(5 * 60),
        Some(utc(next_rotation)),
        utc(now),
    );
    assert_eq!(t, utc(next_rotation + chrono::Duration::minutes(5)));
}

#[test]
fn error_refresh_target_uses_base_when_wake_target_is_later() {
    let now = Utc::now();
    // Next rotation in 6 h → 1 h error_refresh wins.
    let next_rotation = now + chrono::Duration::hours(6);
    let t = error_refresh_target(
        Duration::from_secs(3600),
        Duration::zero(),
        Some(utc(next_rotation)),
        utc(now),
    );
    assert_eq!(t, utc(now + chrono::Duration::hours(1)));
}

#[test]
fn wake_target_is_past_the_rotation() {
    let rotation = local(2026, 4, 21, 2, 0, 0);
    let t = wake_target(rotation, Duration::from_secs(3600)).unwrap();
    assert_eq!(t, local(2026, 4, 21, 3, 0, 0));
    assert_eq!(wake_target(rotation, Duration::zero()), Some(rotation));
}

#[test]
fn shuffle_is_the_seeded_one() {
    for seed in [0u64, 1, 42, u64::MAX] {
        let mut expected: Vec<usize> = (0..50).collect();
        expected.shuffle(&mut StdRng::seed_from_u64(seed));
        let order = shuffled_album(seed, 50);
        assert_eq!(order, expected);
        assert_ne!(order, (0..50).collect::<Vec<usize>>());
    }
    assert!(shuffled_album(7, 0).is_empty());
    assert_eq!(shuffled_album(7, 1), vec![0]);
}

#[test]
fn cursor_goes_round_both_ways() {
    let order = [30, 10, 20];
    assert_eq!(index_in(&order, 0), 30);
    assert_eq!(index_in(&order, 4), 10);
    assert_eq!(index_in(&order, -1), 20);
    assert_eq!(index_in(&order, -3), 30);
    // i64::MIN is 1 modulo 3.
    assert_eq!(index_in(&order, i64::MIN), 10);
    assert_eq!(index_in(&order, i64::MAX), 10);
}

#[test]
fn snap_finds_the_first_new_photo() {
    let order = [3, 0, 2, 1];
    assert_eq!(snap_to_new(&order, 0, &[1, 2]), 2);
    assert_eq!(snap_to_new(&order, 3, &[3]), 1);
    assert_eq!(snap_to_new(&order, 1, &[0]), 0);
    assert_eq!(snap_to_new(&order, 0, &[9]), 0);
    assert_eq!(snap_to_new(&order, 0, &[]), 0);
}

#[test]
fn snap_can_miss_where_the_cursor_wraps() {
    // One round on from i64::MAX over three photos never comes to position 0.
    let order = [5, 6, 7];
    assert_eq!(snap_to_new(&order, i64::MAX, &[5]), 0);
    assert_eq!(snap_to_new(&order, i64::MAX - 3, &[5]), 2);
}

#[test]
fn passive_poll_keeps_the_photo_and_actions_snap() {
    let cfg = config(None);
    let now = local(2026, 4, 20, 12, 0, 0);
    let mut s = ScreenState::new(&cfg);
    let (first, next) = s.pick_index(now, 0, false, &[], 20);
    assert!(next.is_none());
    assert_eq!(first, resolve_index(s.seed(), 0, 20));
    assert_eq!(s.pick_index(now, 0, false, &[3], 20).0, first);
    assert_eq!(s.cursor(), 0);
    assert_eq!(s.pick_index(now, 0, true, &[3], 20).0, 3);
    assert_eq!(s.pick_index(now, 0, false, &[], 20).0, 3);
    let snapped = s.pick_index(now, 1, false, &[11, 12], 20).0;
    assert!(snapped == 11 || snapped == 12);
    let here = s.cursor();
    let shown = s.pick_index(now, 1, false, &[], 20).0;
    assert_eq!(s.cursor(), here + 1);
    assert_eq!(shown, resolve_index(s.seed(), here + 1, 20));
    assert_eq!(s.pick_index(now, -1, false, &[], 20).0, resolve_index(s.seed(), here, 20));
    assert_eq!(s.cursor(), here);
}

#[test]
fn rotation_snaps_to_a_new_photo() {
    let cfg = config(Some(("cron", "0 0 2 * * *")));
    let mut s = ScreenState::new(&cfg);
    let (index, next) = s.pick_index(local(2026, 4, 20, 12, 0, 0), 0, false, &[17], 20);
    assert_eq!(index, 17);
    assert_eq!(next, Some(local(2026, 4, 21, 2, 0, 0)));
    let (index, next) = s.pick_index(local(2026, 4, 21, 2, 0, 0), 0, false, &[4], 20);
    assert_eq!(index, 4);
    assert_eq!(next, Some(local(2026, 4, 22, 2, 0, 0)));
    // The same moment again rotates no more.
    let seed = s.seed();
    s.pick_index(local(2026, 4, 21, 2, 0, 0), 0, false, &[], 20);
    assert_eq!(s.seed(), seed);
}

#[test]
fn upcoming_rotation_needs_a_first_one() {
    let mut s = ScreenState::new(&config(Some(("cron", "0 0 2 * * *"))));
    assert!(s.upcoming_rotation().is_none());
    s.maybe_rotate(local(2026, 4, 20, 12, 0, 0));
    assert_eq!(s.upcoming_rotation(), Some(local(2026, 4, 21, 2, 0, 0)));
    assert_eq!(
        s.next_rotation(local(2026, 5, 1, 2, 0, 0)),
        Some(local(2026, 5, 2, 2, 0, 0))
    );
}

#[test]
fn cursor_wraps_at_its_limits() {
    let mut s = ScreenState::new(&config(None));
    s.advance(i64::MAX);
    s.advance(1);
    assert_eq!(s.cursor(), i64::MIN);
    s.advance(-1);
    assert_eq!(s.cursor(), i64::MAX);
}

#[test]
fn rotation_is_due_once_the_trigger_has_come() {
    let mut s = ScreenState::new(&config(Some(("cron", "* * * * * *"))));
    let t = local(2026, 1, 1, 0, 0, 0);
    let later = t.plus(Duration::from_secs(1)).unwrap();
    assert!(s.rotation_due(t));
    s.advance(4);
    let next = s.next_rotation(t);
    s.reseed(9, t, next);
    assert_eq!((s.seed(), s.cursor(), s.last_rotation()), (9, 0, Some(t)));
    assert_eq!(s.upcoming_rotation(), Some(later));
    assert!(!s.rotation_due(t));
    assert!(s.rotation_due(later));
    let mut s = ScreenState::new(&config(None));
    s.reseed(9, t, None);
    assert!(!s.rotation_due(later));
}

#[test]
fn schedule_in_words_rotates_once_its_trigger_has_come() {
    let mut s = ScreenState::new(&config(Some(("natural", "at 2 AM and 2 PM"))));
    let now = utc(Utc::now());
    let (first, next) = s.pick_index(now, 0, false, &[17], 20);
    assert_eq!(first, 17);
    let trigger = next.unwrap();
    assert!(trigger.at_or_after(&now));
    assert_eq!(s.upcoming_rotation(), Some(trigger));
    // Until the trigger comes the photo stays, whatever is new.
    let before = UtcTime::from_timestamp(trigger.timestamp() - 1, 999_999_999).unwrap();
    let kept = (s.seed(), s.cursor());
    assert_eq!(s.pick_index(before, 0, false, &[4], 20), (17, Some(trigger)));
    assert_eq!((s.seed(), s.cursor()), kept);
    // Once it has come, the album is shuffled anew.
    s.advance(3);
    assert!(s.maybe_rotate(trigger));
    assert_ne!(s.seed(), kept.0);
    assert_eq!((s.cursor(), s.last_rotation()), (0, Some(trigger)));
}

#[test]
fn added_photos_are_shown_on_refresh() {
    let before: Vec<String> = (0..30).map(|i| format!("photo {i}")).collect();
    let after: Vec<String> = (0..33).map(|i| format!("photo {}", (i * 7) % 33)).collect();
    let new = new_indices_in(&before, &after);
    assert_eq!(new.len(), 3);
    let mut s = ScreenState::new(&config(None));
    for seed in 0..50 {
        s.reseed(seed, local(2026, 4, 20, 12, 0, 0), None);
        let shown = s.navigate(-3, true, &new, after.len());
        assert!(!before.contains(&after[shown]));
    }
}

#[test]
fn schedule_that_gave_no_trigger_is_asked_again() {
    let mut s = ScreenState::new(&config(Some(("natural", "at 2 AM and 2 PM"))));
    let now = utc(Utc::now());
    s.ask_again();
    assert!(s.upcoming_rotation().is_none());
    s.reseed(9, now, None);
    s.advance(3);
    assert!(!s.maybe_rotate(now));
    let trigger = s.upcoming_rotation().unwrap();
    assert!(trigger.at_or_after(&now));
    assert_eq!((s.seed(), s.cursor(), s.last_rotation()), (9, 3, Some(now)));
    // A trigger that is there is kept.
    s.ask_again();
    assert_eq!(s.upcoming_rotation(), Some(trigger));
    assert!(s.maybe_rotate(trigger));
    // A cron schedule without a trigger stays without.
    let mut s = ScreenState::new(&config(Some(("cron", "0 0 0 1 1 * 2020"))));
    s.maybe_rotate(now);
    s.ask_again();
    assert!(s.upcoming_rotation().is_none());
}
