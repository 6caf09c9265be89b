//! What is published for per-screen sensor values, and how Home Assistant is told
//! about them.

use crate::config::{MqttConfig, ScreenConfig};
use crate::text::{chars_of, decimal, decimal_of, joined, spells};
use vstd::prelude::*;

verus! {

// ----- JSON strings ------------------------------------------------------------------------------

/// The lower-case hexadecimal digit of a number below sixteen.
pub open spec fn hex_digit(d: u32) -> char {
    if d < 10 {
        (d + 48) as char
    } else {
        (d + 87) as char
    }
}

/// How a character is written inside a JSON string.
pub open spec fn json_char(c: char) -> Seq<char> {
    let n = c as u32;
    if c == '"' {
        seq!['\\', '"']
    } else if c == '\\' {
        seq!['\\', '\\']
    } else if n == 8 {
        seq!['\\', 'b']
    } else if n == 9 {
        seq!['\\', 't']
    } else if n == 10 {
        seq!['\\', 'n']
    } else if n == 12 {
        seq!['\\', 'f']
    } else if n == 13 {
        seq!['\\', 'r']
    } else if n < 32 {
        seq!['\\', 'u', '0', '0', hex_digit(n / 16), hex_digit(n % 16)]
    } else {
        seq![c]
    }
}

/// How characters are written inside a JSON string.
pub open spec fn json_chars(s: Seq<char>) -> Seq<char>
    decreases s.len(),
{
    if s.len() == 0 {
        Seq::empty()
    } else {
        json_chars(s.drop_last()) + json_char(s.last())
    }
}

/// A text as a JSON string.
pub open spec fn json_text(s: Seq<char>) -> Seq<char> {
    "\""@ + json_chars(s) + "\""@
}

/// `serde_json::to_string` of a text: the text in double quotes, with quotes,
/// backslashes and control characters escaped.
#[verifier::external_body]
fn json_string(s: &str) -> (r: String)
    ensures
        r@ == json_text(s@),
{
    serde_json::to_string(s).unwrap()
}

// ----- Sensors --------------------------------------------------------------------------------------

/// A value that a screen's device reports.
#[derive(Debug, Clone, Copy, PartialEq, Eq, Structural)]
pub enum Sensor {
    BatteryPct,
    BatteryMv,
    Temperature,
    Humidity,
    Power,
}

impl Sensor {
    /// Topic suffix and discovery object id.
    pub open spec fn key_text(self) -> Seq<char> {
        match self {
            Sensor::BatteryPct => "battery_pct"@,
            Sensor::BatteryMv => "battery_mv"@,
            Sensor::Temperature => "temperature"@,
            Sensor::Humidity => "humidity"@,
            Sensor::Power => "power"@,
        }
    }

    /// Topic suffix and discovery object id.
    pub fn key(self) -> (r: &'static str)
        ensures
            r@ == self.key_text(),
    {
        match self {
            Sensor::BatteryPct => "battery_pct",
            Sensor::BatteryMv => "battery_mv",
            Sensor::Temperature => "temperature",
            Sensor::Humidity => "humidity",
            Sensor::Power => "power",
        }
    }

    /// Human-readable name.
    pub open spec fn name_text(self) -> Seq<char> {
        match self {
            Sensor::BatteryPct => "Battery"@,
            Sensor::BatteryMv => "Battery voltage"@,
            Sensor::Temperature => "Temperature"@,
            Sensor::Humidity => "Humidity"@,
            Sensor::Power => "Power"@,
        }
    }

    /// Human-readable name shown in Home Assistant.
    pub fn name(self) -> (r: &'static str)
        ensures
            r@ == self.name_text(),
    {
        match self {
            Sensor::BatteryPct => "Battery",
            Sensor::BatteryMv => "Battery voltage",
            Sensor::Temperature => "Temperature",
            Sensor::Humidity => "Humidity",
            Sensor::Power => "Power",
        }
    }

    /// Home Assistant's `device_class`.
    pub open spec fn device_class_text(self) -> Seq<char> {
        match self {
            Sensor::BatteryPct => "battery"@,
            Sensor::BatteryMv => "voltage"@,
            Sensor::Temperature => "temperature"@,
            Sensor::Humidity => "humidity"@,
            Sensor::Power => "enum"@,
        }
    }

    /// Home Assistant's `device_class`. For sensors with a list of permitted
    /// values this is the literal `enum`.
    pub fn device_class(self) -> (r: &'static str)
        ensures
            r@ == self.device_class_text(),
    {
        match self {
            Sensor::BatteryPct => "battery",
            Sensor::BatteryMv => "voltage",
            Sensor::Temperature => "temperature",
            Sensor::Humidity => "humidity",
            Sensor::Power => "enum",
        }
    }

    /// The unit of a numeric sensor.
    pub open spec fn unit_text(self) -> Option<Seq<char>> {
        match self {
            Sensor::BatteryPct => Some("%"@),
            Sensor::BatteryMv => Some("mV"@),
            Sensor::Temperature => Some("°C"@),
            Sensor::Humidity => Some("%"@),
            Sensor::Power => None,
        }
    }

    /// The unit of a numeric sensor; discovery then also gets a `state_class` of
    /// `measurement`.
    pub fn unit(self) -> (r: Option<&'static str>)
        ensures
            match r {
                Some(u) => self.unit_text() == Some(u@),
                None => self.unit_text() is None,
            },
    {
        match self {
            Sensor::BatteryPct => Some("%"),
            Sensor::BatteryMv => Some("mV"),
            Sensor::Temperature => Some("°C"),
            Sensor::Humidity => Some("%"),
            Sensor::Power => None,
        }
    }

    /// The permitted values of a sensor that has such a list.
    pub open spec fn option_texts(self) -> Option<Seq<Seq<char>>> {
        match self {
            Sensor::Power => Some(seq!["battery"@, "charging"@, "full"@, "fault"@]),
            _ => None,
        }
    }

    /// The permitted values of a sensor that has such a list, so Home Assistant
    /// can validate states and show a chooser.
    pub fn options(self) -> (r: Option<Vec<&'static str>>)
        ensures
            match r {
                Some(list) => self.option_texts() == Some(
                    list@.map_values(|o: &'static str| o@),
                ),
                None => self.option_texts() is None,
            },
    {
        match self {
            Sensor::Power => {
                let mut list: Vec<&'static str> = Vec::new();
                list.push("battery");
                list.push("charging");
                list.push("full");
                list.push("fault");
                assert(list@.map_values(|o: &'static str| o@) == seq![
                    "battery"@,
                    "charging"@,
                    "full"@,
                    "fault"@,
                ]);
                Some(list)
            },
            _ => None,
        }
    }
}

/// Whether a screen publishes a sensor.
pub open spec fn publishes(cfg: ScreenConfig, sensor: Sensor) -> bool {
    match sensor {
        Sensor::BatteryPct => cfg.publish_battery,
        Sensor::BatteryMv => cfg.publish_battery,
        Sensor::Temperature => cfg.publish_temperature,
        Sensor::Humidity => cfg.publish_humidity,
        Sensor::Power => cfg.publish_power,
    }
}

/// All sensors, in the order in which they are announced.
pub open spec fn all_sensors() -> Seq<Sensor> {
    seq![
        Sensor::BatteryPct,
        Sensor::BatteryMv,
        Sensor::Temperature,
        Sensor::Humidity,
        Sensor::Power,
    ]
}

/// The sensors of `list` that a screen publishes, in their order.
pub open spec fn published(cfg: ScreenConfig, list: Seq<Sensor>) -> Seq<Sensor>
    decreases list.len(),
{
    if list.len() == 0 {
        Seq::empty()
    } else {
        let before = published(cfg, list.drop_last());
        if publishes(cfg, list.last()) {
            before.push(list.last())
        } else {
            before
        }
    }
}

/// The sensors that a screen publishes.
pub fn enabled_sensors(cfg: &ScreenConfig) -> (r: Vec<Sensor>)
    ensures
        r@ == published(*cfg, all_sensors()),
{
    let mut s: Vec<Sensor> = Vec::new();
    if cfg.publish_battery {
        s.push(Sensor::BatteryPct);
        s.push(Sensor::BatteryMv);
    }
    if cfg.publish_temperature {
        s.push(Sensor::Temperature);
    }
    if cfg.publish_humidity {
        s.push(Sensor::Humidity);
    }
    if cfg.publish_power {
        s.push(Sensor::Power);
    }
    proof {
        reveal_with_fuel(published, 6);
        let all = all_sensors();
        let four = all.drop_last();
        let three = four.drop_last();
        let two = three.drop_last();
        let one = two.drop_last();
        assert(one.drop_last() =~= Seq::<Sensor>::empty());
        assert(s@ =~= published(*cfg, all));
    }
    s
}

// ----- Names and topics ------------------------------------------------------------------------------

/// How a character of a screen name appears in an id.
pub open spec fn slug_char(c: char) -> char {
    if 'A' <= c <= 'Z' {
        (c as u32 + 32) as char
    } else if 'a' <= c <= 'z' || '0' <= c <= '9' {
        c
    } else {
        '_'
    }
}

/// How a screen name appears in an id.
pub open spec fn slug_text(name: Seq<char>) -> Seq<char> {
    name.map_values(|c: char| slug_char(c))
}

/// Home Assistant's discovery `node_id` and entity `unique_id` only allow
/// `[a-z0-9_]`, so any other character in a screen name (e.g. the hyphen in
/// `living-room`) is mapped to `_`. Topics tolerate hyphens, so the state topic
/// uses the original screen name verbatim.
pub fn slug(name: &str) -> (r: String)
    ensures
        r@ == slug_text(name@),
{
    let chars = chars_of(name);
    let n: usize = chars.len();
    let mut out = String::new();
    let mut i: usize = 0;
    while i < n
        invariant
            chars@ == name@,
            n == chars@.len(),
            i <= n,
            out@ == slug_text(name@.take(i as int)),
        decreases n - i,
    {
        let c: char = chars[i];
        let s: char = if 'A' <= c && c <= 'Z' {
            let lower: u8 = (c as u32 + 32) as u8;
            lower as char
        } else if ('a' <= c && c <= 'z') || ('0' <= c && c <= '9') {
            c
        } else {
            '_'
        };
        assert(s == slug_char(c));
        out.push(s);
        i = i + 1;
        assert(slug_text(name@.take(i as int)) == slug_text(name@.take(i - 1)).push(slug_char(c)));
    }
    assert(name@.take(n as int) == name@);
    out
}

/// Where a sensor is announced.
pub open spec fn discovery_topic(prefix: Seq<char>, screen: Seq<char>, sensor: Sensor) -> Seq<char> {
    prefix + "/sensor/epd_photoframe_"@ + slug_text(screen) + "/"@ + sensor.key_text()
        + "/config"@
}

/// Where a sensor's values are published.
pub open spec fn state_topic_text(prefix: Seq<char>, screen: Seq<char>, sensor: Sensor) -> Seq<char> {
    prefix + "/"@ + screen + "/"@ + sensor.key_text()
}

/// Where a sensor's values are published.
pub fn state_topic(prefix: &str, screen: &str, sensor: Sensor) -> (r: String)
    ensures
        r@ == state_topic_text(prefix@, screen@, sensor),
{
    joined(joined(joined(joined(prefix.to_owned(), "/"), screen), "/"), sensor.key())
}

// ----- Messages ------------------------------------------------------------------------------------------

/// Something to publish.
#[derive(Debug)]
pub struct Message {
    pub topic: String,
    pub payload: String,
}

/// A `Message` with its texts as sequences of characters.
pub ghost struct MessageView {
    pub topic: Seq<char>,
    pub payload: Seq<char>,
}

impl View for Message {
    type V = MessageView;

    open spec fn view(&self) -> MessageView {
        MessageView { topic: self.topic@, payload: self.payload@ }
    }
}

/// A list of messages as values.
pub open spec fn messages(list: Seq<Message>) -> Seq<MessageView> {
    list.map_values(|m: Message| m@)
}

/// Texts as the items of a JSON array.
pub open spec fn json_items(list: Seq<Seq<char>>) -> Seq<char>
    decreases list.len(),
{
    if list.len() == 0 {
        Seq::empty()
    } else if list.len() == 1 {
        json_text(list[0])
    } else {
        json_items(list.drop_last()) + ","@ + json_text(list.last())
    }
}

/// The id of a screen's device.
pub open spec fn device_id(screen: Seq<char>) -> Seq<char> {
    "epd_photoframe_"@ + slug_text(screen)
}

/// The device that a screen's sensors belong to, as a JSON object.
pub open spec fn device_json(screen: Seq<char>) -> Seq<char> {
    "{\"identifiers\":["@ + json_text(device_id(screen))
        + "],\"manufacturer\":\"epd-photoframe-server\",\"model\":\"ePaper photo frame\",\"name\":"@
        + json_text(screen) + "}"@
}

/// What Home Assistant is told about a sensor, as a JSON object with its members
/// in alphabetical order.
pub open spec fn discovery_json(state_prefix: Seq<char>, screen: Seq<char>, sensor: Sensor) -> Seq<char> {
    "{\"device\":"@ + device_json(screen) + ",\"device_class\":"@ + json_text(
        sensor.device_class_text(),
    ) + ",\"name\":"@ + json_text(sensor.name_text()) + match sensor.option_texts() {
        Some(options) => ",\"options\":["@ + json_items(options) + "]"@,
        None => ""@,
    } + match sensor.unit_text() {
        Some(_) => ",\"state_class\":\"measurement\""@,
        None => ""@,
    } + ",\"state_topic\":"@ + json_text(state_topic_text(state_prefix, screen, sensor))
        + ",\"unique_id\":"@ + json_text(device_id(screen) + "_"@ + sensor.key_text())
        + match sensor.unit_text() {
        Some(unit) => ",\"unit_of_measurement\":"@ + json_text(unit),
        None => ""@,
    } + "}"@
}

fn json_list(list: &[&'static str]) -> (r: String)
    ensures
        r@ == json_items(list@.map_values(|o: &'static str| o@)),
{
    let n: usize = list.len();
    let ghost views = list@.map_values(|o: &'static str| o@);
    let mut out = String::new();
    let mut i: usize = 0;
    assert(views.take(0) == Seq::<Seq<char>>::empty());
    while i < n
        invariant
            n == list@.len(),
            views == list@.map_values(|o: &'static str| o@),
            i <= n,
            out@ == json_items(views.take(i as int)),
        decreases n - i,
    {
        proof {
            let longer = views.take(i + 1);
            assert(longer.drop_last() == views.take(i as int));
            assert(longer.last() == list@[i as int]@);
        }
        let item = json_string(list[i]);
        if i == 0 {
            out = item;
        } else {
            out = joined(joined(out, ","), item.as_str());
        }
        i = i + 1;
    }
    assert(views.take(n as int) == views);
    out
}

fn device_text(screen: &str, id: &str) -> (r: String)
    requires
        id@ == device_id(screen@),
    ensures
        r@ == device_json(screen@),
{
    let a = joined("{\"identifiers\":[".to_owned(), json_string(id).as_str());
    let b = joined(
        a,
        "],\"manufacturer\":\"epd-photoframe-server\",\"model\":\"ePaper photo frame\",\"name\":",
    );
    joined(joined(b, json_string(screen).as_str()), "}")
}

fn options_text(sensor: Sensor) -> (r: String)
    ensures
        r@ == match sensor.option_texts() {
            Some(options) => ",\"options\":["@ + json_items(options) + "]"@,
            None => ""@,
        },
{
    match sensor.options() {
        Some(options) => joined(
            joined(",\"options\":[".to_owned(), json_list(options.as_slice()).as_str()),
            "]",
        ),
        None => "".to_owned(),
    }
}

fn unit_member(sensor: Sensor) -> (r: String)
    ensures
        r@ == match sensor.unit_text() {
            Some(unit) => ",\"unit_of_measurement\":"@ + json_text(unit),
            None => ""@,
        },
{
    match sensor.unit() {
        Some(unit) => joined(
            ",\"unit_of_measurement\":".to_owned(),
            json_string(unit).as_str(),
        ),
        None => "".to_owned(),
    }
}

/// What Home Assistant is told about a sensor.
pub fn discovery_payload(state_prefix: &str, screen: &str, sensor: Sensor) -> (r: String)
    ensures
        r@ == discovery_json(state_prefix@, screen@, sensor),
{
    let id = joined("epd_photoframe_".to_owned(), slug(screen).as_str());
    let unique = joined(joined(id.clone(), "_"), sensor.key());
    let topic = state_topic(state_prefix, screen, sensor);
    let class: &str = match sensor.unit() {
        Some(_) => ",\"state_class\":\"measurement\"",
        None => "",
    };
    let a = joined("{\"device\":".to_owned(), device_text(screen, id.as_str()).as_str());
    let b = joined(
        joined(a, ",\"device_class\":"),
        json_string(sensor.device_class()).as_str(),
    );
    let c = joined(joined(b, ",\"name\":"), json_string(sensor.name()).as_str());
    let d = joined(joined(c, options_text(sensor).as_str()), class);
    let e = joined(joined(d, ",\"state_topic\":"), json_string(topic.as_str()).as_str());
    let f = joined(joined(e, ",\"unique_id\":"), json_string(unique.as_str()).as_str());
    joined(joined(f, unit_member(sensor).as_str()), "}")
}

/// The announcement of a sensor.
pub open spec fn announcement(cfg: MqttConfig, screen: Seq<char>, sensor: Sensor) -> MessageView {
    MessageView {
        topic: discovery_topic(cfg.discovery_prefix@, screen, sensor),
        payload: discovery_json(cfg.state_prefix@, screen, sensor),
    }
}

/// The announcements of a screen.
pub open spec fn screen_announcements(cfg: MqttConfig, screen: ScreenConfig) -> Seq<MessageView> {
    published(screen, all_sensors()).map_values(
        |sensor: Sensor| announcement(cfg, screen.name@, sensor),
    )
}

/// The announcements of all screens, one screen after the other.
pub open spec fn announcements(cfg: MqttConfig, screens: Seq<ScreenConfig>) -> Seq<MessageView>
    decreases screens.len(),
{
    if screens.len() == 0 {
        Seq::empty()
    } else {
        announcements(cfg, screens.drop_last()) + screen_announcements(cfg, screens.last())
    }
}

/// The announcement of a sensor.
pub fn discovery_message(cfg: &MqttConfig, screen: &str, sensor: Sensor) -> (r: Message)
    ensures
        r@ == announcement(*cfg, screen@, sensor),
{
    let a = joined(cfg.discovery_prefix.clone(), "/sensor/epd_photoframe_");
    let b = joined(joined(a, slug(screen).as_str()), "/");
    let topic = joined(joined(b, sensor.key()), "/config");
    let payload = discovery_payload(cfg.state_prefix.as_str(), screen, sensor);
    Message { topic, payload }
}

fn announce_screen(cfg: &MqttConfig, screen: &ScreenConfig, out: &mut Vec<Message>)
    ensures
        messages(final(out)@) == messages(old(out)@) + screen_announcements(*cfg, *screen),
{
    let sensors = enabled_sensors(screen);
    let n: usize = sensors.len();
    let ghost before = messages(out@);
    let ghost all = screen_announcements(*cfg, *screen);
    let mut i: usize = 0;
    while i < n
        invariant
            n == sensors@.len(),
            sensors@ == published(*screen, all_sensors()),
            all == screen_announcements(*cfg, *screen),
            i <= n,
            messages(out@) == before + all.take(i as int),
        decreases n - i,
    {
        let m = discovery_message(cfg, screen.name.as_str(), sensors[i]);
        let ghost so_far = messages(out@);
        let ghost added = m@;
        out.push(m);
        assert(messages(out@) == so_far.push(added));
        assert(all.take(i + 1) == all.take(i as int).push(added));
        i = i + 1;
    }
    assert(all.take(n as int) == all);
}

/// A discovery config for every enabled sensor on every screen.
pub fn discovery_messages(cfg: &MqttConfig, screens: &[ScreenConfig]) -> (r: Vec<Message>)
    ensures
        messages(r@) == announcements(*cfg, screens@),
{
    let n: usize = screens.len();
    let mut out: Vec<Message> = Vec::new();
    let mut i: usize = 0;
    assert(screens@.take(0) == Seq::<ScreenConfig>::empty());
    while i < n
        invariant
            n == screens@.len(),
            i <= n,
            messages(out@) == announcements(*cfg, screens@.take(i as int)),
        decreases n - i,
    {
        announce_screen(cfg, &screens[i], &mut out);
        assert(screens@.take(i + 1).drop_last() == screens@.take(i as int));
        i = i + 1;
    }
    assert(screens@.take(n as int) == screens@);
    out
}

/// What the broker is logged in to with: both a name and a password, or neither.
pub fn credentials(cfg: &MqttConfig) -> (r: Option<(&str, &str)>)
    ensures
        match r {
            Some((u, p)) => cfg.username matches Some(name) && u@ == name@ && (
            cfg.password matches Some(word) && p@ == word@),
            None => cfg.username is None || cfg.password is None,
        },
{
    match (&cfg.username, &cfg.password) {
        (Some(u), Some(p)) => Some((u.as_str(), p.as_str())),
        _ => None,
    }
}

// ----- Values --------------------------------------------------------------------------------------------

/// How a device is powered.
#[derive(Debug, Clone, Copy, PartialEq, Eq, Structural)]
pub enum PowerState {
    Battery,
    Charging,
    Full,
    Fault,
}

/// How a power state is published.
pub open spec fn power_text(power: PowerState) -> Seq<char> {
    match power {
        PowerState::Battery => "battery"@,
        PowerState::Charging => "charging"@,
        PowerState::Full => "full"@,
        PowerState::Fault => "fault"@,
    }
}

impl PowerState {
    /// How it is published.
    pub fn as_str(self) -> (r: &'static str)
        ensures
            r@ == power_text(self),
    {
        match self {
            PowerState::Battery => "battery",
            PowerState::Charging => "charging",
            PowerState::Full => "full",
            PowerState::Fault => "fault",
        }
    }

    /// The power state of that name.
    pub fn parse(text: &str) -> (r: Option<PowerState>)
        ensures
            match r {
                Some(p) => text@ == power_text(p),
                None => forall|p: PowerState| text@ != #[trigger] power_text(p),
            },
    {
        let chars = chars_of(text);
        let c = chars.as_slice();
        if spells(c, "battery") {
            Some(PowerState::Battery)
        } else if spells(c, "charging") {
            Some(PowerState::Charging)
        } else if spells(c, "full") {
            Some(PowerState::Full)
        } else if spells(c, "fault") {
            Some(PowerState::Fault)
        } else {
            None
        }
    }
}

/// Snapshot of sensor readings forwarded by the device, captured per request. The
/// device may report any subset of these on any given request.
#[derive(Debug)]
pub struct SensorState {
    pub battery_mv: Option<u32>,
    pub battery_pct: Option<u8>,
    /// In decimal notation.
    pub temperature_c: Option<String>,
    /// In decimal notation.
    pub humidity_pct: Option<String>,
    pub power: Option<PowerState>,
}

/// The view of an optional text.
pub open spec fn text_of(t: Option<String>) -> Option<Seq<char>> {
    match t {
        Some(t) => Some(t@),
        None => None,
    }
}

/// What a sensor's reading is published as, where there is one.
pub open spec fn reading(state: SensorState, sensor: Sensor) -> Option<Seq<char>> {
    match sensor {
        Sensor::BatteryPct => match state.battery_pct {
            Some(p) => Some(decimal(p as nat)),
            None => None,
        },
        Sensor::BatteryMv => match state.battery_mv {
            Some(v) => Some(decimal(v as nat)),
            None => None,
        },
        Sensor::Temperature => text_of(state.temperature_c),
        Sensor::Humidity => text_of(state.humidity_pct),
        Sensor::Power => match state.power {
            Some(p) => Some(power_text(p)),
            None => None,
        },
    }
}

impl SensorState {
    /// What a sensor's reading is published as, where there is one.
    pub fn reading_of(&self, sensor: Sensor) -> (r: Option<String>)
        ensures
            text_of(r) == reading(*self, sensor),
    {
        match sensor {
            Sensor::BatteryPct => match self.battery_pct {
                Some(p) => Some(decimal_of(p as u64)),
                None => None,
            },
            Sensor::BatteryMv => match self.battery_mv {
                Some(v) => Some(decimal_of(v as u64)),
                None => None,
            },
            Sensor::Temperature => match &self.temperature_c {
                Some(t) => Some(t.clone()),
                None => None,
            },
            Sensor::Humidity => match &self.humidity_pct {
                Some(h) => Some(h.clone()),
                None => None,
            },
            Sensor::Power => match self.power {
                Some(p) => Some(p.as_str().to_owned()),
                None => None,
            },
        }
    }
}

/// The readings of the sensors in `list` that were reported, as messages.
pub open spec fn reports(
    prefix: Seq<char>,
    screen: Seq<char>,
    state: SensorState,
    list: Seq<Sensor>,
) -> Seq<MessageView>
    decreases list.len(),
{
    if list.len() == 0 {
        Seq::empty()
    } else {
        let before = reports(prefix, screen, state, list.drop_last());
        match reading(state, list.last()) {
            Some(payload) => before.push(
                MessageView { topic: state_topic_text(prefix, screen, list.last()), payload },
            ),
            None => before,
        }
    }
}

/// One message for each sensor of a screen that is both enabled and reported.
pub fn state_messages(prefix: &str, screen: &ScreenConfig, state: &SensorState) -> (r: Vec<Message>)
    ensures
        messages(r@) == reports(
            prefix@,
            screen.name@,
            *state,
            published(*screen, all_sensors()),
        ),
{
    let sensors = enabled_sensors(screen);
    let n: usize = sensors.len();
    let mut out: Vec<Message> = Vec::new();
    let mut i: usize = 0;
    assert(sensors@.take(0) == Seq::<Sensor>::empty());
    while i < n
        invariant
            n == sensors@.len(),
            i <= n,
            messages(out@) == reports(prefix@, screen.name@, *state, sensors@.take(i as int)),
        decreases n - i,
    {
        assert(sensors@.take(i + 1).drop_last() == sensors@.take(i as int));
        match state.reading_of(sensors[i]) {
            Some(payload) => {
                let topic = state_topic(prefix, screen.name.as_str(), sensors[i]);
                let m = Message { topic, payload };
                let ghost before = messages(out@);
                let ghost added = m@;
                out.push(m);
                assert(messages(out@) == before.push(added));
            },
            None => {},
        }
        i = i + 1;
    }
    assert(sensors@.take(n as int) == sensors@);
    out
}

// ----- Laws ----------------------------------------------------------------------------------------------

/// A slug has as many characters as the name, all of them letters, digits or
/// underscores in lower case; a slug is its own slug.
pub proof fn law_slug_is_an_id(name: Seq<char>)
    ensures
        slug_text(name).len() == name.len(),
        forall|i: int|
            0 <= i < name.len() ==> {
                let c = #[trigger] slug_text(name)[i];
                'a' <= c <= 'z' || '0' <= c <= '9' || c == '_'
            },
        slug_text(slug_text(name)) == slug_text(name),
{
    assert(slug_text(slug_text(name)) == slug_text(name));
}

/// A sensor is announced, and its values are published, exactly where its flag
/// is set.
pub proof fn law_flags_decide(cfg: ScreenConfig, sensor: Sensor)
    ensures
        published(cfg, all_sensors()).contains(sensor) <==> publishes(cfg, sensor),
{
    lemma_published(cfg, all_sensors());
    let all = all_sensors();
    assert(all.contains(sensor)) by {
        match sensor {
            Sensor::BatteryPct => { assert(all[0] == sensor); },
            Sensor::BatteryMv => { assert(all[1] == sensor); },
            Sensor::Temperature => { assert(all[2] == sensor); },
            Sensor::Humidity => { assert(all[3] == sensor); },
            Sensor::Power => { assert(all[4] == sensor); },
        }
    }
}

proof fn lemma_published(cfg: ScreenConfig, list: Seq<Sensor>)
    ensures
        forall|s: Sensor| #[trigger]
            published(cfg, list).contains(s) <==> list.contains(s) && publishes(cfg, s),
    decreases list.len(),
{
    if list.len() > 0 {
        let shorter = list.drop_last();
        let before = published(cfg, shorter);
        lemma_published(cfg, shorter);
        assert forall|s: Sensor| #[trigger]
            published(cfg, list).contains(s) <==> list.contains(s) && publishes(cfg, s) by {
            if published(cfg, list).contains(s) {
                let k = choose|k: int|
                    0 <= k < published(cfg, list).len() && published(cfg, list)[k] == s;
                if k < before.len() {
                    assert(before[k] == s);
                    assert(before.contains(s));
                    let j = choose|j: int| 0 <= j < shorter.len() && shorter[j] == s;
                    assert(list[j] == s);
                } else {
                    assert(list[list.len() - 1] == s);
                }
            }
            if list.contains(s) && publishes(cfg, s) {
                let j = choose|j: int| 0 <= j < list.len() && list[j] == s;
                if j < shorter.len() {
                    assert(shorter[j] == s);
                    assert(before.contains(s));
                    let k = choose|k: int| 0 <= k < before.len() && before[k] == s;
                    assert(published(cfg, list)[k] == s);
                } else {
                    assert(published(cfg, list).last() == s);
                }
            }
        }
    }
}

/// Differing sensors of one screen publish under differing topics.
pub proof fn law_topics_differ(prefix: Seq<char>, screen: Seq<char>, a: Sensor, b: Sensor)
    requires
        a != b,
    ensures
        state_topic_text(prefix, screen, a) != state_topic_text(prefix, screen, b),
{
    reveal_strlit("battery_pct");
    reveal_strlit("battery_mv");
    reveal_strlit("temperature");
    reveal_strlit("humidity");
    reveal_strlit("power");
    let head = prefix + "/"@ + screen + "/"@;
    let ta = state_topic_text(prefix, screen, a);
    let tb = state_topic_text(prefix, screen, b);
    assert(ta.skip(head.len() as int) == a.key_text());
    assert(tb.skip(head.len() as int) == b.key_text());
    assert(a.key_text() != b.key_text()) by {
        if a.key_text() == b.key_text() {
            assert(a.key_text().len() == b.key_text().len());
            assert(a.key_text()[0] == b.key_text()[0]);
        }
    }
}

/// Every power state that is published is among the announced options.
pub proof fn law_power_states_are_announced(power: PowerState)
    ensures
        Sensor::Power.option_texts() matches Some(options) && options.contains(power_text(power)),
{
    let options = Sensor::Power.option_texts()->0;
    match power {
        PowerState::Battery => { assert(options[0] == power_text(power)); },
        PowerState::Charging => { assert(options[1] == power_text(power)); },
        PowerState::Full => { assert(options[2] == power_text(power)); },
        PowerState::Fault => { assert(options[3] == power_text(power)); },
    }
}

/// Each sensor's reading is exactly what the device reported of it, and nothing where
/// it reported nothing: numbers in decimal, texts as they came, the power state by
/// its name. No reading depends on another.
pub proof fn law_reading_is_what_was_reported(state: SensorState)
    ensures
        state.battery_pct matches Some(p) ==> reading(state, Sensor::BatteryPct) == Some(
            decimal(p as nat),
        ),
        state.battery_mv matches Some(v) ==> reading(state, Sensor::BatteryMv) == Some(
            decimal(v as nat),
        ),
        state.temperature_c matches Some(t) ==> reading(state, Sensor::Temperature) == Some(t@),
        state.humidity_pct matches Some(h) ==> reading(state, Sensor::Humidity) == Some(h@),
        state.power matches Some(p) ==> reading(state, Sensor::Power) == Some(
            match p {
                PowerState::Battery => "battery"@,
                PowerState::Charging => "charging"@,
                PowerState::Full => "full"@,
                PowerState::Fault => "fault"@,
            },
        ),
        state.battery_pct is None ==> reading(state, Sensor::BatteryPct) is None,
        state.battery_mv is None ==> reading(state, Sensor::BatteryMv) is None,
        state.temperature_c is None ==> reading(state, Sensor::Temperature) is None,
        state.humidity_pct is None ==> reading(state, Sensor::Humidity) is None,
        state.power is None ==> reading(state, Sensor::Power) is None,
{
}

proof fn lemma_reports(
    prefix: Seq<char>,
    screen: Seq<char>,
    state: SensorState,
    list: Seq<Sensor>,
    m: MessageView,
)
    ensures
        reports(prefix, screen, state, list).contains(m) <==> exists|k: int|
            0 <= k < list.len() && reading(state, #[trigger] list[k]) == Some(m.payload) && m.topic
                == state_topic_text(prefix, screen, list[k]),
    decreases list.len(),
{
    let all = reports(prefix, screen, state, list);
    if list.len() > 0 {
        let shorter = list.drop_last();
        let before = reports(prefix, screen, state, shorter);
        lemma_reports(prefix, screen, state, shorter, m);
        if all.contains(m) {
            let i = choose|i: int| 0 <= i < all.len() && all[i] == m;
            if i < before.len() {
                assert(before[i] == m);
                assert(before.contains(m));
                let k = choose|k: int|
                    0 <= k < shorter.len() && reading(state, #[trigger] shorter[k]) == Some(
                        m.payload,
                    ) && m.topic == state_topic_text(prefix, screen, shorter[k]);
                assert(list[k] == shorter[k]);
            } else {
                assert(reading(state, list[list.len() - 1]) == Some(m.payload));
            }
        }
        if exists|k: int|
            0 <= k < list.len() && reading(state, #[trigger] list[k]) == Some(m.payload) && m.topic
                == state_topic_text(prefix, screen, list[k]) {
            let k = choose|k: int|
                0 <= k < list.len() && reading(state, #[trigger] list[k]) == Some(m.payload)
                    && m.topic == state_topic_text(prefix, screen, list[k]);
            if k < shorter.len() {
                assert(shorter[k] == list[k]);
                assert(before.contains(m));
                let i = choose|i: int| 0 <= i < before.len() && before[i] == m;
                assert(all[i] == m);
            } else {
                assert(all[all.len() - 1] == m);
            }
        }
    }
}

/// Under a sensor's own topic, `<prefix>/<screen>/<sensor>`, exactly what the device
/// reported of that sensor is published, and only where the sensor's flag is set;
/// so a change of one reading changes no other sensor's message.
pub proof fn law_readings_go_to_their_own_topic(
    prefix: Seq<char>,
    cfg: ScreenConfig,
    state: SensorState,
    sensor: Sensor,
    payload: Seq<char>,
)
    ensures
        reports(prefix, cfg.name@, state, published(cfg, all_sensors())).contains(
            MessageView {
                topic: prefix + "/"@ + cfg.name@ + "/"@ + match sensor {
                    Sensor::BatteryPct => "battery_pct"@,
                    Sensor::BatteryMv => "battery_mv"@,
                    Sensor::Temperature => "temperature"@,
                    Sensor::Humidity => "humidity"@,
                    Sensor::Power => "power"@,
                },
                payload,
            },
        ) <==> match sensor {
            Sensor::BatteryPct => cfg.publish_battery && (state.battery_pct matches Some(p)
                && payload == decimal(p as nat)),
            Sensor::BatteryMv => cfg.publish_battery && (state.battery_mv matches Some(v) && payload
                == decimal(v as nat)),
            Sensor::Temperature => cfg.publish_temperature && (state.temperature_c matches Some(t)
                && payload == t@),
            Sensor::Humidity => cfg.publish_humidity && (state.humidity_pct matches Some(h)
                && payload == h@),
            Sensor::Power => cfg.publish_power && (state.power matches Some(p) && payload
                == match p {
                PowerState::Battery => "battery"@,
                PowerState::Charging => "charging"@,
                PowerState::Full => "full"@,
                PowerState::Fault => "fault"@,
            }),
        },
{
    let list = published(cfg, all_sensors());
    let m = MessageView { topic: state_topic_text(prefix, cfg.name@, sensor), payload };
    lemma_reports(prefix, cfg.name@, state, list, m);
    law_flags_decide(cfg, sensor);
    if reports(prefix, cfg.name@, state, list).contains(m) {
        let k = choose|k: int|
            0 <= k < list.len() && reading(state, #[trigger] list[k]) == Some(m.payload) && m.topic
                == state_topic_text(prefix, cfg.name@, list[k]);
        if list[k] != sensor {
            law_topics_differ(prefix, cfg.name@, list[k], sensor);
        }
        assert(list.contains(sensor));
    }
    if list.contains(sensor) && reading(state, sensor) == Some(payload) {
        let k = choose|k: int| 0 <= k < list.len() && list[k] == sensor;
        assert(reading(state, list[k]) == Some(m.payload));
    }
}

/// Nothing else is published: every message is under the topic of one of the sensors
/// and no topic comes twice.
pub proof fn law_one_message_per_sensor(
    prefix: Seq<char>,
    cfg: ScreenConfig,
    state: SensorState,
)
    ensures
        forall|i: int, j: int|
            0 <= i < j < reports(prefix, cfg.name@, state, published(cfg, all_sensors())).len()
                ==> (#[trigger] reports(prefix, cfg.name@, state, published(cfg, all_sensors()))[i]).topic
                != (#[trigger] reports(prefix, cfg.name@, state, published(cfg, all_sensors()))[j]).topic,
{
    lemma_published_once(cfg, all_sensors());
    lemma_reports_once(prefix, cfg.name@, state, published(cfg, all_sensors()));
}

proof fn lemma_published_once(cfg: ScreenConfig, list: Seq<Sensor>)
    requires
        list.no_duplicates(),
    ensures
        published(cfg, list).no_duplicates(),
    decreases list.len(),
{
    if list.len() > 0 {
        let shorter = list.drop_last();
        lemma_published_once(cfg, shorter);
        lemma_published(cfg, shorter);
        if published(cfg, shorter).contains(list.last()) {
            let k = choose|k: int| 0 <= k < shorter.len() && shorter[k] == list.last();
            assert(list[k] == list[list.len() - 1]);
        }
    }
}

proof fn lemma_reports_once(
    prefix: Seq<char>,
    screen: Seq<char>,
    state: SensorState,
    list: Seq<Sensor>,
)
    requires
        list.no_duplicates(),
    ensures
        forall|i: int, j: int|
            0 <= i < j < reports(prefix, screen, state, list).len() ==> (#[trigger] reports(
                prefix,
                screen,
                state,
                list,
            )[i]).topic != (#[trigger] reports(prefix, screen, state, list)[j]).topic,
    decreases list.len(),
{
    if list.len() > 0 {
        let shorter = list.drop_last();
        let before = reports(prefix, screen, state, shorter);
        let all = reports(prefix, screen, state, list);
        lemma_reports_once(prefix, screen, state, shorter);
        assert forall|i: int, j: int| 0 <= i < j < all.len() implies (#[trigger] all[i]).topic != (
        #[trigger] all[j]).topic by {
            if j == before.len() {
                let m = before[i];
                assert(before.contains(m));
                lemma_reports(prefix, screen, state, shorter, m);
                let k = choose|k: int|
                    0 <= k < shorter.len() && reading(state, #[trigger] shorter[k]) == Some(
                        m.payload,
                    ) && m.topic == state_topic_text(prefix, screen, shorter[k]);
                assert(list[k] != list[list.len() - 1]);
                law_topics_differ(prefix, screen, list[k], list.last());
            } else {
                assert(before[i] == all[i] && before[j] == all[j]);
            }
        }
    }
}

/// Which flag a sensor goes by.
pub proof fn law_flags_by_sensor(cfg: ScreenConfig, sensor: Sensor)
    ensures
        published(cfg, all_sensors()).contains(sensor) <==> match sensor {
            Sensor::BatteryPct | Sensor::BatteryMv => cfg.publish_battery,
            Sensor::Temperature => cfg.publish_temperature,
            Sensor::Humidity => cfg.publish_humidity,
            Sensor::Power => cfg.publish_power,
        },
{
    law_flags_decide(cfg, sensor);
}

/// A slug keeps small letters and digits, makes capitals small, and puts `_` for
/// every other character.
pub proof fn law_slug_by_character(name: Seq<char>, i: int)
    requires
        0 <= i < name.len(),
    ensures
        slug_text(name).len() == name.len(),
        'a' <= name[i] <= 'z' || '0' <= name[i] <= '9' ==> slug_text(name)[i] == name[i],
        'A' <= name[i] <= 'Z' ==> slug_text(name)[i] as u32 - 'a' as u32 == name[i] as u32
            - 'A' as u32,
        !('a' <= name[i] <= 'z' || 'A' <= name[i] <= 'Z' || '0' <= name[i] <= '9')
            ==> slug_text(name)[i] == '_',
{
}

/// Whether a part stands somewhere in a text.
#[verifier::opaque]
pub open spec fn has_part(text: Seq<char>, part: Seq<char>) -> bool {
    exists|at: int|
        0 <= at && at + part.len() <= text.len() && #[trigger] text.subrange(at, at + part.len())
            == part
}

proof fn lemma_part_at_end(head: Seq<char>, part: Seq<char>)
    ensures
        has_part(head + part, part),
{
    reveal(has_part);
    let at = head.len() as int;
    assert((head + part).subrange(at, at + part.len()) == part);
}

proof fn lemma_part_stays(text: Seq<char>, part: Seq<char>, more: Seq<char>)
    requires
        has_part(text, part),
    ensures
        has_part(text + more, part),
{
    reveal(has_part);
    let at = choose|at: int|
        0 <= at && at + part.len() <= text.len() && #[trigger] text.subrange(at, at + part.len())
            == part;
    assert((text + more).subrange(at, at + part.len()) == text.subrange(at, at + part.len()));
}

proof fn lemma_member(head: Seq<char>, name: Seq<char>, value: Seq<char>)
    ensures
        has_part(head + name + value, name + value),
{
    assert(head + name + value == head + (name + value));
    lemma_part_at_end(head, name + value);
}

/// What Home Assistant is told of a sensor: the topic that its values are published
/// under, an id of its own, its name and kind, and its unit or its options.
pub proof fn law_announcement_describes_the_sensor(
    state_prefix: Seq<char>,
    screen: Seq<char>,
    sensor: Sensor,
)
    ensures
        ({
            let json = discovery_json(state_prefix, screen, sensor);
            let key = match sensor {
                Sensor::BatteryPct => "battery_pct"@,
                Sensor::BatteryMv => "battery_mv"@,
                Sensor::Temperature => "temperature"@,
                Sensor::Humidity => "humidity"@,
                Sensor::Power => "power"@,
            };
            let kind = match sensor {
                Sensor::BatteryPct => "battery"@,
                Sensor::BatteryMv => "voltage"@,
                Sensor::Temperature => "temperature"@,
                Sensor::Humidity => "humidity"@,
                Sensor::Power => "enum"@,
            };
            let label = match sensor {
                Sensor::BatteryPct => "Battery"@,
                Sensor::BatteryMv => "Battery voltage"@,
                Sensor::Temperature => "Temperature"@,
                Sensor::Humidity => "Humidity"@,
                Sensor::Power => "Power"@,
            };
            &&& has_part(
                json,
                ",\"state_topic\":"@ + json_text(state_prefix + "/"@ + screen + "/"@ + key),
            )
            &&& has_part(
                json,
                ",\"unique_id\":"@ + json_text(
                    "epd_photoframe_"@ + slug_text(screen) + "_"@ + key,
                ),
            )
            &&& has_part(json, ",\"device_class\":"@ + json_text(kind))
            &&& has_part(json, ",\"name\":"@ + json_text(label))
            &&& match sensor {
                Sensor::BatteryPct | Sensor::Humidity => has_part(
                    json,
                    ",\"unit_of_measurement\":"@ + json_text("%"@),
                ),
                Sensor::BatteryMv => has_part(
                    json,
                    ",\"unit_of_measurement\":"@ + json_text("mV"@),
                ),
                Sensor::Temperature => has_part(
                    json,
                    ",\"unit_of_measurement\":"@ + json_text("°C"@),
                ),
                Sensor::Power => has_part(
                    json,
                    ",\"options\":["@ + (json_text("battery"@) + ","@ + json_text("charging"@) + ","@
                        + json_text("full"@) + ","@ + json_text("fault"@)),
                ),
            }
            &&& sensor != Sensor::Power ==> has_part(json, ",\"state_class\":\"measurement\""@)
            &&& has_part(json, device_json(screen))
        }),
{
    let options = match sensor.option_texts() {
        Some(options) => ",\"options\":["@ + json_items(options) + "]"@,
        None => ""@,
    };
    let measured = match sensor.unit_text() {
        Some(_) => ",\"state_class\":\"measurement\""@,
        None => ""@,
    };
    let unit = match sensor.unit_text() {
        Some(unit) => ",\"unit_of_measurement\":"@ + json_text(unit),
        None => ""@,
    };
    lemma_members(
        discovery_json(state_prefix, screen, sensor),
        device_json(screen),
        json_text(sensor.device_class_text()),
        json_text(sensor.name_text()),
        options,
        measured,
        json_text(state_topic_text(state_prefix, screen, sensor)),
        json_text(device_id(screen) + "_"@ + sensor.key_text()),
        unit,
    );
    if sensor == Sensor::Power {
        lemma_power_options();
        let part = ",\"options\":["@ + json_items(seq!["battery"@, "charging"@, "full"@, "fault"@]);
        lemma_part_at_end(Seq::empty(), part);
        assert(Seq::<char>::empty() + part == part);
        lemma_part_stays(part, part, "]"@);
        lemma_part_of_part(discovery_json(state_prefix, screen, sensor), options, part);
    }
}

proof fn lemma_power_options()
    ensures
        json_items(seq!["battery"@, "charging"@, "full"@, "fault"@]) == json_text("battery"@) + ","@
            + json_text("charging"@) + ","@ + json_text("full"@) + ","@ + json_text("fault"@),
{
    let list = seq!["battery"@, "charging"@, "full"@, "fault"@];
    reveal_with_fuel(json_items, 5);
    assert(list.drop_last() == seq!["battery"@, "charging"@, "full"@]);
    assert(list.drop_last().drop_last() == seq!["battery"@, "charging"@]);
    assert(list.drop_last().drop_last().drop_last() == seq!["battery"@]);
}

proof fn lemma_members(
    json: Seq<char>,
    device: Seq<char>,
    class_value: Seq<char>,
    name_value: Seq<char>,
    options: Seq<char>,
    measured: Seq<char>,
    topic_value: Seq<char>,
    id_value: Seq<char>,
    unit: Seq<char>,
)
    requires
        json == "{\"device\":"@ + device + ",\"device_class\":"@ + class_value + ",\"name\":"@
            + name_value + options + measured + ",\"state_topic\":"@ + topic_value
            + ",\"unique_id\":"@ + id_value + unit + "}"@,
    ensures
        has_part(json, device),
        has_part(json, ",\"device_class\":"@ + class_value),
        has_part(json, ",\"name\":"@ + name_value),
        has_part(json, options),
        has_part(json, measured),
        has_part(json, ",\"state_topic\":"@ + topic_value),
        has_part(json, ",\"unique_id\":"@ + id_value),
        has_part(json, unit),
{
    let a = "{\"device\":"@ + device;
    let b = a + ",\"device_class\":"@ + class_value;
    let c = b + ",\"name\":"@ + name_value;
    let d = c + options;
    let e = d + measured;
    let f = e + ",\"state_topic\":"@ + topic_value;
    let g = f + ",\"unique_id\":"@ + id_value;
    let h = g + unit;
    lemma_part_at_end("{\"device\":"@, device);
    lemma_part_stays(a, device, ",\"device_class\":"@);
    lemma_part_stays(a + ",\"device_class\":"@, device, class_value);
    lemma_member(a, ",\"device_class\":"@, class_value);
    lemma_after_class(b, device, name_value, options, measured, topic_value, id_value, unit);
    lemma_after_class(
        b,
        ",\"device_class\":"@ + class_value,
        name_value,
        options,
        measured,
        topic_value,
        id_value,
        unit,
    );
    lemma_member(b, ",\"name\":"@, name_value);
    lemma_after_name(
        c,
        ",\"name\":"@ + name_value,
        options,
        measured,
        topic_value,
        id_value,
        unit,
    );
    lemma_part_at_end(c, options);
    lemma_after_options(d, options, measured, topic_value, id_value, unit);
    lemma_part_at_end(d, measured);
    lemma_after_measured(e, measured, topic_value, id_value, unit);
    lemma_member(e, ",\"state_topic\":"@, topic_value);
    lemma_after_topic(f, ",\"state_topic\":"@ + topic_value, id_value, unit);
    lemma_member(f, ",\"unique_id\":"@, id_value);
    lemma_part_stays(g, ",\"unique_id\":"@ + id_value, unit);
    lemma_part_stays(h, ",\"unique_id\":"@ + id_value, "}"@);
    lemma_part_at_end(g, unit);
    lemma_part_stays(h, unit, "}"@);
}

proof fn lemma_part_of_part(text: Seq<char>, part: Seq<char>, inner: Seq<char>)
    requires
        has_part(text, part),
        has_part(part, inner),
    ensures
        has_part(text, inner),
{
    reveal(has_part);
    let at = choose|at: int|
        0 <= at && at + part.len() <= text.len() && #[trigger] text.subrange(at, at + part.len())
            == part;
    let by = choose|by: int|
        0 <= by && by + inner.len() <= part.len() && #[trigger] part.subrange(by, by + inner.len())
            == inner;
    assert(text.subrange(at + by, at + by + inner.len()) == part.subrange(by, by + inner.len()));
}

proof fn lemma_after_topic(f: Seq<char>, part: Seq<char>, id_value: Seq<char>, unit: Seq<char>)
    requires
        has_part(f, part),
    ensures
        has_part(f + ",\"unique_id\":"@ + id_value + unit + "}"@, part),
{
    let g = f + ",\"unique_id\":"@;
    lemma_part_stays(f, part, ",\"unique_id\":"@);
    lemma_part_stays(g, part, id_value);
    lemma_part_stays(g + id_value, part, unit);
    lemma_part_stays(g + id_value + unit, part, "}"@);
}

proof fn lemma_after_measured(
    e: Seq<char>,
    part: Seq<char>,
    topic_value: Seq<char>,
    id_value: Seq<char>,
    unit: Seq<char>,
)
    requires
        has_part(e, part),
    ensures
        has_part(
            e + ",\"state_topic\":"@ + topic_value + ",\"unique_id\":"@ + id_value + unit + "}"@,
            part,
        ),
{
    lemma_part_stays(e, part, ",\"state_topic\":"@);
    lemma_part_stays(e + ",\"state_topic\":"@, part, topic_value);
    lemma_after_topic(e + ",\"state_topic\":"@ + topic_value, part, id_value, unit);
}

proof fn lemma_after_options(
    d: Seq<char>,
    part: Seq<char>,
    measured: Seq<char>,
    topic_value: Seq<char>,
    id_value: Seq<char>,
    unit: Seq<char>,
)
    requires
        has_part(d, part),
    ensures
        has_part(
            d + measured + ",\"state_topic\":"@ + topic_value + ",\"unique_id\":"@ + id_value + unit
                + "}"@,
            part,
        ),
{
    lemma_part_stays(d, part, measured);
    lemma_after_measured(d + measured, part, topic_value, id_value, unit);
}

proof fn lemma_after_name(
    c: Seq<char>,
    part: Seq<char>,
    options: Seq<char>,
    measured: Seq<char>,
    topic_value: Seq<char>,
    id_value: Seq<char>,
    unit: Seq<char>,
)
    requires
        has_part(c, part),
    ensures
        has_part(
            c + options + measured + ",\"state_topic\":"@ + topic_value + ",\"unique_id\":"@
                + id_value + unit + "}"@,
            part,
        ),
{
    lemma_part_stays(c, part, options);
    lemma_after_options(c + options, part, measured, topic_value, id_value, unit);
}

proof fn lemma_after_class(
    b: Seq<char>,
    part: Seq<char>,
    name_value: Seq<char>,
    options: Seq<char>,
    measured: Seq<char>,
    topic_value: Seq<char>,
    id_value: Seq<char>,
    unit: Seq<char>,
)
    requires
        has_part(b, part),
    ensures
        has_part(
            b + ",\"name\":"@ + name_value + options + measured + ",\"state_topic\":"@ + topic_value
                + ",\"unique_id\":"@ + id_value + unit + "}"@,
            part,
        ),
{
    lemma_part_stays(b, part, ",\"name\":"@);
    lemma_part_stays(b + ",\"name\":"@, part, name_value);
    lemma_after_name(
        b + ",\"name\":"@ + name_value,
        part,
        options,
        measured,
        topic_value,
        id_value,
        unit,
    );
}

/// A screen's device is named after the screen and identified by its slug.
pub proof fn law_device_is_named_after_the_screen(screen: Seq<char>)
    ensures
        has_part(device_json(screen), json_text("epd_photoframe_"@ + slug_text(screen))),
        has_part(device_json(screen), "\"name\":"@ + json_text(screen) + "}"@),
{
    let id = json_text(device_id(screen));
    let middle =
        "],\"manufacturer\":\"epd-photoframe-server\",\"model\":\"ePaper photo frame\",\"name\":"@;
    let a = "{\"identifiers\":["@ + id;
    lemma_part_at_end("{\"identifiers\":["@, id);
    lemma_part_stays(a, id, middle);
    lemma_part_stays(a + middle, id, json_text(screen));
    lemma_part_stays(a + middle + json_text(screen), id, "}"@);
    reveal_strlit(
        "],\"manufacturer\":\"epd-photoframe-server\",\"model\":\"ePaper photo frame\",\"name\":",
    );
    reveal_strlit("\"name\":");
    let key = "\"name\":"@;
    let lead = middle.take(middle.len() - key.len());
    assert(middle == lead + key);
    let tail = key + json_text(screen) + "}"@;
    assert(device_json(screen) == (a + lead) + tail);
    lemma_part_at_end(a + lead, tail);
}

/// Where a sensor is announced: `<prefix>/sensor/epd_photoframe_<slug>/<sensor>/config`;
/// what is announced there speaks of the same screen and sensor.
pub proof fn law_announcement_topic(cfg: MqttConfig, screen: Seq<char>, sensor: Sensor)
    ensures
        announcement(cfg, screen, sensor).topic == cfg.discovery_prefix@
            + "/sensor/epd_photoframe_"@ + slug_text(screen) + "/"@ + match sensor {
            Sensor::BatteryPct => "battery_pct"@,
            Sensor::BatteryMv => "battery_mv"@,
            Sensor::Temperature => "temperature"@,
            Sensor::Humidity => "humidity"@,
            Sensor::Power => "power"@,
        } + "/config"@,
        announcement(cfg, screen, sensor).payload == discovery_json(
            cfg.state_prefix@,
            screen,
            sensor,
        ),
{
}

/// Whether a message is among the announcements of a screen.
#[verifier::opaque]
pub open spec fn announced_by(cfg: MqttConfig, screen: ScreenConfig, m: MessageView) -> bool {
    screen_announcements(cfg, screen).contains(m)
}

proof fn lemma_announcements_grow(cfg: MqttConfig, screens: Seq<ScreenConfig>, m: MessageView)
    requires
        screens.len() > 0,
    ensures
        announcements(cfg, screens).contains(m) <==> announcements(
            cfg,
            screens.drop_last(),
        ).contains(m) || announced_by(cfg, screens.last(), m),
{
    reveal(announced_by);
    lemma_message_in_sum(
        announcements(cfg, screens.drop_last()),
        screen_announcements(cfg, screens.last()),
        m,
    );
}

/// Every screen's announcements are made, and nothing else is announced.
#[verifier::spinoff_prover]
pub proof fn law_every_screen_is_announced(
    cfg: MqttConfig,
    screens: Seq<ScreenConfig>,
    m: MessageView,
)
    ensures
        announcements(cfg, screens).contains(m) <==> exists|i: int|
            0 <= i < screens.len() && #[trigger] announced_by(cfg, screens[i], m),
    decreases screens.len(),
{
    if screens.len() > 0 {
        let shorter = screens.drop_last();
        law_every_screen_is_announced(cfg, shorter, m);
        lemma_announcements_grow(cfg, screens, m);
        if announcements(cfg, shorter).contains(m) {
            let i = choose|i: int|
                0 <= i < shorter.len() && #[trigger] announced_by(cfg, shorter[i], m);
            assert(announced_by(cfg, screens[i], m));
        }
        if announced_by(cfg, screens.last(), m) {
            assert(announced_by(cfg, screens[screens.len() - 1], m));
        }
        if exists|i: int| 0 <= i < screens.len() && #[trigger] announced_by(cfg, screens[i], m) {
            let i = choose|i: int|
                0 <= i < screens.len() && #[trigger] announced_by(cfg, screens[i], m);
            if i < shorter.len() {
                assert(announced_by(cfg, shorter[i], m));
            }
        }
    }
}

proof fn lemma_message_in_sum(a: Seq<MessageView>, b: Seq<MessageView>, m: MessageView)
    ensures
        (a + b).contains(m) <==> a.contains(m) || b.contains(m),
{
    let both = a + b;
    if a.contains(m) {
        let k = choose|k: int| 0 <= k < a.len() && a[k] == m;
        assert(both[k] == m);
    }
    if b.contains(m) {
        let k = choose|k: int| 0 <= k < b.len() && b[k] == m;
        assert(both[a.len() + k] == m);
    }
    if both.contains(m) {
        let k = choose|k: int| 0 <= k < both.len() && both[k] == m;
        if k < a.len() {
            assert(a[k] == m);
        } else {
            assert(b[k - a.len()] == m);
        }
    }
}

/// A screen announces one sensor after the other, exactly those that it publishes.
pub proof fn law_screen_announces_what_it_publishes(cfg: MqttConfig, screen: ScreenConfig, k: int)
    ensures
        screen_announcements(cfg, screen).len() == published(screen, all_sensors()).len(),
        0 <= k < published(screen, all_sensors()).len() ==> screen_announcements(cfg, screen)[k]
            == announcement(cfg, screen.name@, published(screen, all_sensors())[k]),
{
}

} // verus!
