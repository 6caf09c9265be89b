use chrono::{Datelike, TimeZone, Utc};
use chrono_tz::Tz;
use epd_photoframe_server::clock::UtcTime;
use epd_photoframe_server::schedule::{pick_after, Rotate, Timezone};

fn utc(t: chrono::DateTime<Utc>) -> UtcTime {
    UtcTime::from_timestamp(t.timestamp(), t.timestamp_subsec_nanos()).unwrap()
}

fn amsterdam() -> Timezone {
    Timezone::parse("Europe/Amsterdam").unwrap()
}

fn at(h: u32, mi: u32, s: u32) -> UtcTime {
    utc(Utc.with_ymd_and_hms(2026, 4, 20, h, mi, s).unwrap())
}

#[test]
fn time_zones_by_name() {
    assert_eq!(amsterdam().name(), "Europe/Amsterdam");
    assert_eq!(amsterdam().clone().name(), "Europe/Amsterdam");
    assert!(Timezone::parse("Europe/Nowhere").is_none());
    assert!(Timezone::parse("").is_none());
}

#[test]
fn dates_are_local() {
    let tz: Tz = "Pacific/Auckland".parse().unwrap();
    let zone = Timezone::parse("Pacific/Auckland").unwrap();
    for secs in [0i64, 1_776_600_000, 1_776_643_200, -86_401, 951_782_400] {
        let moment = chrono::DateTime::from_timestamp(secs, 5).unwrap().with_timezone(&tz);
        let date = zone.date(UtcTime::from_timestamp(secs, 5).unwrap());
        assert_eq!(
            (date.year, date.month, date.day, date.weekday),
            (
                moment.year(),
                moment.month(),
                moment.day(),
                moment.weekday().num_days_from_sunday()
            )
        );
    }
}

#[test]
fn cron_triggers_in_the_time_zone() {
    let rotate = Rotate::parse("cron", "0 0 2 * * *").unwrap();
    // 02:00 summer time is 00:00 UTC.
    let next = rotate.next_after(at(12, 0, 0), &amsterdam()).unwrap();
    assert_eq!(next, utc(Utc.with_ymd_and_hms(2026, 4, 21, 0, 0, 0).unwrap()));
    // Strictly after.
    let again = rotate.next_after(next, &amsterdam()).unwrap();
    assert_eq!(again, utc(Utc.with_ymd_and_hms(2026, 4, 22, 0, 0, 0).unwrap()));
    assert_eq!(rotate.clone().next_after(next, &amsterdam()), Some(again));
}

#[test]
fn cron_triggers_stay_later_in_a_repeated_hour() {
    // Clocks go back on 25 Oct 2026 at 03:00; 02:30 comes twice.
    let rotate = Rotate::parse("cron", "0 30 2 * * *").unwrap();
    let second = utc(Utc.with_ymd_and_hms(2026, 10, 25, 1, 10, 0).unwrap());
    let next = rotate.next_after(second, &amsterdam()).unwrap();
    assert!(next.at_or_after(&second) && next != second);
    assert_eq!(next, utc(Utc.with_ymd_and_hms(2026, 10, 25, 1, 30, 0).unwrap()));
}

#[test]
fn exhausted_cron_has_no_trigger() {
    let rotate = Rotate::parse("cron", "0 0 0 1 1 * 2020").unwrap();
    assert!(rotate.next_after(at(0, 0, 0), &amsterdam()).is_none());
}

#[test]
fn words_are_evaluated_from_the_present() {
    let rotate = Rotate::parse("natural", "at 2 AM and 2 PM").unwrap();
    let now = utc(Utc::now());
    let zone = Timezone::parse("Etc/UTC").unwrap();
    let next = rotate.next_after(now, &zone).unwrap();
    assert!(next.at_or_after(&now));
    assert!(next.timestamp() - now.timestamp() <= 12 * 3600 + 1);
    assert!([2, 14].contains(&(next.timestamp().rem_euclid(86_400) / 3600)));
    assert_eq!(next.timestamp() % 3600, 0);
}

#[test]
fn first_of_two_that_lies_after() {
    let t = [at(1, 0, 0), at(2, 0, 0), at(3, 0, 0)];
    assert_eq!(pick_after(t[0], Some(t[1]), Some(t[2])), Some(t[1]));
    assert_eq!(pick_after(t[1], Some(t[1]), Some(t[2])), Some(t[2]));
    assert_eq!(pick_after(t[2], Some(t[1]), Some(t[2])), None);
    assert_eq!(pick_after(t[2], Some(t[1]), None), None);
    assert_eq!(pick_after(t[0], None, Some(t[2])), None);
}
