use epd_photoframe_server::clock::Duration;
use epd_photoframe_server::config::{
    BackgroundMethod, DitherConfig, FitMethod, MqttConfig, ScreenConfig,
};
use epd_photoframe_server::mqtt::{
    credentials, discovery_messages, discovery_payload, enabled_sensors, slug, state_messages,
    PowerState, Sensor, SensorState,
};
use epd_photoframe_server::schedule::Timezone;
use serde_json::Value;

#[test]
fn slug_lowercases_and_replaces_punctuation() {
    assert_eq!(slug("living-room"), "living_room");
    assert_eq!(slug("E1002-Landscape"), "e1002_landscape");
    assert_eq!(slug("foo.bar"), "foo_bar");
    assert_eq!(slug("plain"), "plain");
}

fn screen_with(battery: bool, temp: bool, humidity: bool, power: bool) -> ScreenConfig {
    ScreenConfig {
        name: "x".to_string(),
        width: 800,
        height: 480,
        share_url: "https://example.com".to_string(),
        fit: FitMethod::default(),
        background: BackgroundMethod::default(),
        infobox: None,
        battery_indicator: None,
        rotate: None,
        wake_delay: Duration::zero(),
        error_refresh: Duration::from_secs(3600),
        timezone: Timezone::parse("UTC").unwrap(),
        dither: DitherConfig::default(),
        publish_battery: battery,
        publish_temperature: temp,
        publish_humidity: humidity,
        publish_power: power,
    }
}

#[test]
fn enabled_sensors_battery_includes_both_mv_and_pct() {
    let s = enabled_sensors(&screen_with(true, false, false, false));
    let keys: Vec<_> = s.iter().map(|s| s.key()).collect();
    assert_eq!(keys, vec!["battery_pct", "battery_mv"]);
}

#[test]
fn enabled_sensors_all_off_produces_nothing() {
    let s = enabled_sensors(&screen_with(false, false, false, false));
    assert!(s.is_empty());
}

#[test]
fn enabled_sensors_all_on_produces_five() {
    let s = enabled_sensors(&screen_with(true, true, true, true));
    let keys: Vec<_> = s.iter().map(|s| s.key()).collect();
    assert_eq!(
        keys,
        vec!["battery_pct", "battery_mv", "temperature", "humidity", "power"]
    );
}

#[test]
fn power_sensor_is_an_enum_with_four_options() {
    assert_eq!(Sensor::Power.device_class(), "enum");
    assert!(Sensor::Power.unit().is_none());
    assert_eq!(
        Sensor::Power.options().as_deref(),
        Some(&["battery", "charging", "full", "fault"][..])
    );
}

fn mqtt() -> MqttConfig {
    MqttConfig {
        broker: "localhost".to_string(),
        port: 1883,
        client_id: "frames".to_string(),
        username: None,
        password: None,
        discovery_prefix: "homeassistant".to_string(),
        state_prefix: "epd".to_string(),
    }
}

#[test]
fn numeric_sensors_have_a_unit() {
    let payload: Value =
        serde_json::from_str(&discovery_payload("epd", "living-room", Sensor::BatteryMv)).unwrap();
    assert_eq!(payload["name"], "Battery voltage");
    assert_eq!(payload["unique_id"], "epd_photoframe_living_room_battery_mv");
    assert_eq!(payload["state_topic"], "epd/living-room/battery_mv");
    assert_eq!(payload["device_class"], "voltage");
    assert_eq!(payload["unit_of_measurement"], "mV");
    assert_eq!(payload["state_class"], "measurement");
    assert!(payload.get("options").is_none());
    assert_eq!(payload["device"]["identifiers"][0], "epd_photoframe_living_room");
    assert_eq!(payload["device"]["name"], "living-room");
    assert_eq!(payload["device"]["manufacturer"], "epd-photoframe-server");
    assert_eq!(payload["device"]["model"], "ePaper photo frame");
}

#[test]
fn payload_is_as_the_json_crate_writes_it() {
    for sensor in [
        Sensor::BatteryPct,
        Sensor::BatteryMv,
        Sensor::Temperature,
        Sensor::Humidity,
        Sensor::Power,
    ] {
        let text = discovery_payload("epd", "living-room", sensor);
        let value: Value = serde_json::from_str(&text).unwrap();
        assert_eq!(value.to_string(), text);
    }
}

#[test]
fn power_lists_its_options() {
    let payload: Value =
        serde_json::from_str(&discovery_payload("epd", "x", Sensor::Power)).unwrap();
    let options: Vec<&str> = payload["options"]
        .as_array()
        .unwrap()
        .iter()
        .map(|o| o.as_str().unwrap())
        .collect();
    assert_eq!(options, vec!["battery", "charging", "full", "fault"]);
    assert!(payload.get("unit_of_measurement").is_none());
    assert!(payload.get("state_class").is_none());
}

#[test]
fn names_are_escaped() {
    let mut name = String::from("a\"b\\c\u{8}\t\n\u{c}\r/\u{7f}é𝄞");
    for c in 0..32u8 {
        name.push(c as char);
    }
    let text = discovery_payload("epd", &name, Sensor::Humidity);
    let payload: Value = serde_json::from_str(&text).unwrap();
    assert_eq!(payload["device"]["name"], name.as_str());
    assert!(text.contains("a\\\"b\\\\c\\b\\t\\n\\f\\r/\u{7f}é𝄞\\u0000\\u0001"));
    assert!(text.contains("\\u001f\""));
}

#[test]
fn every_enabled_sensor_of_every_screen_is_announced() {
    let mut first = screen_with(true, false, false, false);
    first.name = "Living room".to_string();
    let second = screen_with(false, true, false, true);
    let messages = discovery_messages(&mqtt(), &[first, second]);
    let topics: Vec<&str> = messages.iter().map(|m| m.topic.as_str()).collect();
    assert_eq!(
        topics,
        vec![
            "homeassistant/sensor/epd_photoframe_living_room/battery_pct/config",
            "homeassistant/sensor/epd_photoframe_living_room/battery_mv/config",
            "homeassistant/sensor/epd_photoframe_x/temperature/config",
            "homeassistant/sensor/epd_photoframe_x/power/config",
        ]
    );
    assert_eq!(
        messages[2].payload,
        discovery_payload("epd", "x", Sensor::Temperature)
    );
}

#[test]
fn enabled_and_present_values_are_published() {
    let state = SensorState {
        battery_mv: Some(3660),
        battery_pct: Some(38),
        temperature_c: Some("21.87".to_string()),
        humidity_pct: None,
        power: Some(PowerState::Charging),
    };
    let publish = |screen: &ScreenConfig| -> Vec<(String, String)> {
        state_messages("epd", screen, &state)
            .into_iter()
            .map(|m| (m.topic, m.payload))
            .collect()
    };
    let pair = |t: &str, p: &str| (t.to_string(), p.to_string());
    assert_eq!(
        publish(&screen_with(true, true, true, true)),
        vec![
            pair("epd/x/battery_pct", "38"),
            pair("epd/x/battery_mv", "3660"),
            pair("epd/x/temperature", "21.87"),
            pair("epd/x/power", "charging"),
        ]
    );
    assert_eq!(
        publish(&screen_with(false, true, false, false)),
        vec![pair("epd/x/temperature", "21.87")]
    );
}

#[test]
fn credentials_need_both_parts() {
    let mut cfg = mqtt();
    assert!(credentials(&cfg).is_none());
    cfg.username = Some("me".to_string());
    assert!(credentials(&cfg).is_none());
    cfg.password = Some("word".to_string());
    assert_eq!(credentials(&cfg), Some(("me", "word")));
    cfg.username = None;
    assert!(credentials(&cfg).is_none());
}

#[test]
fn power_states_by_name() {
    for p in [
        PowerState::Battery,
        PowerState::Charging,
        PowerState::Full,
        PowerState::Fault,
    ] {
        assert_eq!(PowerState::parse(p.as_str()), Some(p));
    }
    assert_eq!(PowerState::parse("Full"), None);
}
