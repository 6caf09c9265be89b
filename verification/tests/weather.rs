use epd_photoframe_server::config::Units;
use epd_photoframe_server::weather::{daily_entries, forecast_url, NoDays};

fn s(values: &[&str]) -> Vec<String> {
    values.iter().map(|s| s.to_string()).collect()
}

#[test]
fn shortest_list_decides() {
    let days = daily_entries(&s(&["18", "14", "19"]), &s(&["8", "6"]), &[3, 1, 0]).unwrap();
    assert_eq!(days.len(), 2);
    assert_eq!(days[0].temperature_max, "18");
    assert_eq!(days[0].temperature_min, "8");
    assert_eq!(days[0].weather_code, 3);
    assert_eq!(days[1].temperature_max, "14");
    assert_eq!(days[1].temperature_min, "6");
    assert_eq!(days[1].weather_code, 1);
    assert_eq!(daily_entries(&s(&["1", "2"]), &s(&["1", "2"]), &[3]).unwrap().len(), 1);
}

#[test]
fn no_days_is_an_error() {
    assert_eq!(daily_entries(&[], &s(&["8"]), &[3]).unwrap_err(), NoDays);
    assert!(daily_entries(&s(&["8"]), &[], &[3]).is_err());
    assert!(daily_entries(&s(&["8"]), &s(&["8"]), &[]).is_err());
    assert_eq!(NoDays.message(), "weather response had no daily entries");
}

#[test]
fn request_has_place_zone_and_units() {
    assert_eq!(
        forecast_url("52.37", "-4.9", "Europe/Amsterdam", Units::Metric, 1),
        "https://api.open-meteo.com/v1/forecast?latitude=52.37&longitude=-4.9\
         &daily=temperature_2m_max,temperature_2m_min,weather_code\
         &forecast_days=1&timezone=Europe/Amsterdam\
         &temperature_unit=celsius&wind_speed_unit=kmh"
    );
}
