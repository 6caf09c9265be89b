//! The date and weather overlay.

use crate::clock::{days_later, latest, UtcTime};
use crate::config::{ColorConfig, HeaderLayout, InfoboxConfig, Units, WeatherLayout};
use crate::drawable::{branch, leaf, trees, BoxStyle, Drawable, DrawableView, Node, NodeView};
use crate::schedule::{date_of, LocalDate, Timezone};
use crate::text::{decimal, decimal_of, decimal_of_signed, joined, signed_decimal};
use crate::weather::{days_of, forecast_request, forecast_url, DailyWeather, DayView};
use vstd::prelude::*;

verus! {

// ----- Names and glyphs --------------------------------------------------------------------------

/// The English name of a month, 1 to 12.
pub open spec fn month_text(month: u32) -> Seq<char> {
    match month {
        1 => "January"@,
        2 => "February"@,
        3 => "March"@,
        4 => "April"@,
        5 => "May"@,
        6 => "June"@,
        7 => "July"@,
        8 => "August"@,
        9 => "September"@,
        10 => "October"@,
        11 => "November"@,
        _ => "December"@,
    }
}

/// The English name of a month, 1 to 12.
pub fn month_name(month: u32) -> (r: &'static str)
    requires
        1 <= month <= 12,
    ensures
        r@ == month_text(month),
{
    match month {
        1 => "January",
        2 => "February",
        3 => "March",
        4 => "April",
        5 => "May",
        6 => "June",
        7 => "July",
        8 => "August",
        9 => "September",
        10 => "October",
        11 => "November",
        _ => "December",
    }
}

/// The English name of a weekday, 0 for Sunday to 6.
pub open spec fn weekday_text(weekday: u32) -> Seq<char> {
    match weekday {
        0 => "Sunday"@,
        1 => "Monday"@,
        2 => "Tuesday"@,
        3 => "Wednesday"@,
        4 => "Thursday"@,
        5 => "Friday"@,
        _ => "Saturday"@,
    }
}

/// The English name of a weekday, 0 for Sunday to 6.
pub fn weekday_name(weekday: u32) -> (r: &'static str)
    requires
        weekday <= 6,
    ensures
        r@ == weekday_text(weekday),
{
    match weekday {
        0 => "Sunday",
        1 => "Monday",
        2 => "Tuesday",
        3 => "Wednesday",
        4 => "Thursday",
        5 => "Friday",
        _ => "Saturday",
    }
}

/// The three letters for a weekday, 0 for Sunday to 6.
pub open spec fn weekday_letters(weekday: u32) -> Seq<char> {
    match weekday {
        0 => "Sun"@,
        1 => "Mon"@,
        2 => "Tue"@,
        3 => "Wed"@,
        4 => "Thu"@,
        5 => "Fri"@,
        _ => "Sat"@,
    }
}

/// The three letters for a weekday, 0 for Sunday to 6.
pub fn short_weekday_name(weekday: u32) -> (r: &'static str)
    requires
        weekday <= 6,
    ensures
        r@ == weekday_letters(weekday),
{
    match weekday {
        0 => "Sun",
        1 => "Mon",
        2 => "Tue",
        3 => "Wed",
        4 => "Thu",
        5 => "Fri",
        _ => "Sat",
    }
}

/// What follows a temperature.
pub open spec fn suffix(units: Units) -> Seq<char> {
    match units {
        Units::Metric => "°C"@,
        Units::Imperial => "°F"@,
    }
}

impl Units {
    /// What follows a temperature in these units.
    pub fn temperature_suffix(self) -> (r: &'static str)
        ensures
            r@ == suffix(self),
    {
        match self {
            Units::Metric => "°C",
            Units::Imperial => "°F",
        }
    }
}

/// The Weather Icons glyph for a WMO 4677 weather code.
pub open spec fn icon_for(code: Option<u32>) -> char {
    match code {
        None => '\u{F07B}',
        Some(c) => if c == 0 {
            '\u{F00D}'
        } else if c == 1 {
            '\u{F00C}'
        } else if c == 2 {
            '\u{F002}'
        } else if c == 3 {
            '\u{F013}'
        } else if c == 45 || c == 48 {
            '\u{F014}'
        } else if c == 51 || c == 53 {
            '\u{F01C}'
        } else if c == 55 || 80 <= c <= 82 {
            '\u{F01A}'
        } else if c == 56 || c == 57 || c == 66 || c == 67 {
            '\u{F017}'
        } else if c == 61 || c == 63 || c == 65 {
            '\u{F019}'
        } else if c == 71 || c == 73 || c == 75 || c == 85 || c == 86 {
            '\u{F01B}'
        } else if c == 77 {
            '\u{F076}'
        } else if c == 95 || c == 96 || c == 99 {
            '\u{F01E}'
        } else {
            '\u{F07B}'
        },
    }
}

/// Maps an Open-Meteo (WMO 4677) weather code to a Weather Icons glyph. Neutral
/// (non-day/night) icons, since the infobox summarises the whole day. `None` (no
/// weather data at all — e.g. fetch failed) gives the same `wi-na` glyph as
/// unrecognised codes.
pub fn wmo_icon(code: Option<u32>) -> (r: char)
    ensures
        r == icon_for(code),
{
    match code {
        Some(0) => '\u{F00D}',  // wi-day-sunny
        Some(1) => '\u{F00C}',  // wi-day-sunny-overcast
        Some(2) => '\u{F002}',  // wi-day-cloudy
        Some(3) => '\u{F013}',  // wi-cloudy
        Some(45 | 48) => '\u{F014}',  // wi-fog
        Some(51 | 53) => '\u{F01C}',  // wi-sprinkle
        Some(55) => '\u{F01A}',  // wi-showers
        Some(56 | 57 | 66 | 67) => '\u{F017}',  // wi-rain-mix
        Some(61 | 63 | 65) => '\u{F019}',  // wi-rain
        Some(71 | 73 | 75 | 85 | 86) => '\u{F01B}',  // wi-snow
        Some(77) => '\u{F076}',  // wi-snowflake-cold
        Some(80..=82) => '\u{F01A}',  // wi-showers
        Some(95 | 96 | 99) => '\u{F01E}',  // wi-thunderstorm
        _ => '\u{F07B}',  // wi-na
    }
}

// ----- Lines and cells ------------------------------------------------------------------------------

/// A line of text as a box of its own.
pub open spec fn text_box(style: BoxStyle, content: Seq<char>, size: u32, color: ColorConfig) -> NodeView {
    NodeView {
        style,
        drawable: Some(DrawableView::Text { content, size, color }),
        children: Seq::empty(),
    }
}

/// A line of text as a box of its own.
pub fn text_leaf(style: BoxStyle, content: String, size: u32, color: ColorConfig) -> (r: Node)
    ensures
        r.tree() == text_box(style, content@, size, color),
{
    leaf(style, Drawable::Text { content, size, color })
}

/// A date in words: day of the month, month and year.
pub open spec fn date_line(date: LocalDate) -> Seq<char> {
    decimal(date.day as nat) + " "@ + month_text(date.month) + " "@ + signed_decimal(
        date.year as int,
    )
}

/// A date in words: day of the month, month and year.
pub fn date_text(date: LocalDate) -> (r: String)
    requires
        1 <= date.month <= 12,
    ensures
        r@ == date_line(date),
{
    let a = joined(joined(decimal_of(date.day as u64), " "), month_name(date.month));
    joined(joined(a, " "), decimal_of_signed(date.year).as_str())
}

/// The measures of a row of compact day-cells, in hundredths of the text size.
#[derive(Debug, Clone, Copy, PartialEq, Eq, Structural)]
pub struct CellStyle {
    /// Size of the weekday.
    pub weekday: u32,
    /// Size of the icon.
    pub icon: u32,
    /// Size of the two temperatures.
    pub temperature: u32,
    /// Gap between two cells.
    pub gap: u32,
    /// Extra margin above the row.
    pub top: u32,
}

/// The cells below the line for today: on a text size of 60, weekday 44, icon 56,
/// temperatures 32, cells 12 apart, and 4 beyond the usual gap above.
pub open spec fn one_plus_four_cells() -> CellStyle {
    CellStyle { weekday: 73, icon: 93, temperature: 53, gap: 20, top: 7 }
}

/// The cells of a row that starts with today: on a text size of 60, weekday 36,
/// icon 48, temperatures 28, and cells 10 apart.
pub open spec fn five_cells() -> CellStyle {
    CellStyle { weekday: 60, icon: 80, temperature: 47, gap: 17, top: 0 }
}

impl CellStyle {
    /// The cells below the line for today.
    pub fn one_plus_four() -> (r: Self)
        ensures
            r == one_plus_four_cells(),
    {
        CellStyle { weekday: 73, icon: 93, temperature: 53, gap: 20, top: 7 }
    }

    /// The cells of a row that starts with today.
    pub fn five() -> (r: Self)
        ensures
            r == five_cells(),
    {
        CellStyle { weekday: 60, icon: 80, temperature: 47, gap: 17, top: 0 }
    }
}

/// One compact day-cell: weekday, icon, highest and lowest temperature, one above
/// the other and centred.
pub open spec fn cell_tree(
    style: CellStyle,
    weekday: Seq<char>,
    icon: char,
    max_temp: Seq<char>,
    min_temp: Seq<char>,
    color: ColorConfig,
) -> NodeView {
    NodeView {
        style: BoxStyle::Cell,
        drawable: None,
        children: seq![
            text_box(BoxStyle::Centred { top: 0 }, weekday, style.weekday, color),
            NodeView {
                style: BoxStyle::Centred { top: 13 },
                drawable: Some(DrawableView::Icon { glyph: icon, size: style.icon, color }),
                children: Seq::empty(),
            },
            text_box(BoxStyle::Centred { top: 10 }, max_temp, style.temperature, color),
            text_box(BoxStyle::Centred { top: 7 }, min_temp, style.temperature, color),
        ],
    }
}

/// Build one compact day-cell — vertical stack of weekday letters, weather icon,
/// max temperature, min temperature.
pub fn compact_cell(
    style: CellStyle,
    weekday: String,
    icon_glyph: char,
    max_temp: String,
    min_temp: String,
    color: ColorConfig,
) -> (r: Node)
    ensures
        r.tree() == cell_tree(style, weekday@, icon_glyph, max_temp@, min_temp@, color),
{
    let mut rows: Vec<Node> = Vec::new();
    rows.push(text_leaf(BoxStyle::Centred { top: 0 }, weekday, style.weekday, color));
    rows.push(
        leaf(
            BoxStyle::Centred { top: 13 },
            Drawable::Icon { glyph: icon_glyph, size: style.icon, color },
        ),
    );
    rows.push(text_leaf(BoxStyle::Centred { top: 10 }, max_temp, style.temperature, color));
    rows.push(text_leaf(BoxStyle::Centred { top: 7 }, min_temp, style.temperature, color));
    let r = branch(BoxStyle::Cell, None, rows);
    assert(r.tree().children == cell_tree(
        style,
        weekday@,
        icon_glyph,
        max_temp@,
        min_temp@,
        color,
    ).children);
    r
}

/// The cell for the day that many days after `now`.
pub open spec fn day_cell(
    style: CellStyle,
    timezone: Seq<char>,
    now: int,
    ahead: int,
    day: DayView,
    units: Units,
    color: ColorConfig,
) -> NodeView {
    cell_tree(
        style,
        weekday_letters(date_of(timezone, days_later(now, ahead)).weekday),
        icon_for(Some(day.weather_code)),
        day.temperature_max + suffix(units),
        day.temperature_min + suffix(units),
        color,
    )
}

/// A row of compact day-cells, the first for the day `first` days after `now`.
pub open spec fn row_tree(
    style: CellStyle,
    timezone: Seq<char>,
    now: int,
    first: int,
    days: Seq<DayView>,
    units: Units,
    color: ColorConfig,
) -> NodeView {
    NodeView {
        style: BoxStyle::Row { gap: style.gap, top: style.top },
        drawable: None,
        children: Seq::new(
            days.len(),
            |i: int| day_cell(style, timezone, now, first + i, days[i], units, color),
        ),
    }
}

/// Horizontal row of compact day-cells for the days from index `first` of a list
/// on, where index 0 is for the day of `now`.
pub fn compact_cell_row(
    style: CellStyle,
    tz: &Timezone,
    now: UtcTime,
    days: &[DailyWeather],
    first: usize,
    units: Units,
    color: ColorConfig,
) -> (r: Node)
    requires
        first <= days@.len(),
        first < days@.len() ==> days_later(now@, days@.len() - 1) <= latest(),
    ensures
        r.tree() == row_tree(
            style,
            tz@,
            now@,
            first as int,
            days_of(days@).skip(first as int),
            units,
            color,
        ),
{
    let n: usize = days.len();
    let ghost shown = days_of(days@).skip(first as int);
    let mut cells: Vec<Node> = Vec::new();
    let mut i: usize = first;
    while i < n
        invariant
            n == days@.len(),
            first <= i <= n,
            shown == days_of(days@).skip(first as int),
            first < n ==> days_later(now@, n - 1) <= latest(),
            trees(cells@) == Seq::new(
                (i - first) as nat,
                |k: int| day_cell(style, tz@, now@, first + k, shown[k], units, color),
            ),
        decreases n - i,
    {
        let then: UtcTime = now.plus_days(i as u64).unwrap();
        let date = tz.date(then);
        let day = &days[i];
        assert(shown[i - first] == day@);
        let cell = compact_cell(
            style,
            short_weekday_name(date.weekday).to_owned(),
            wmo_icon(Some(day.weather_code)),
            joined(day.temperature_max.clone(), units.temperature_suffix()),
            joined(day.temperature_min.clone(), units.temperature_suffix()),
            color,
        );
        let ghost before = trees(cells@);
        let ghost added = cell.tree();
        cells.push(cell);
        assert(trees(cells@) == before.push(added));
        i = i + 1;
    }
    branch(BoxStyle::Row { gap: style.gap, top: style.top }, None, cells)
}

// ----- The overlay ------------------------------------------------------------------------------------

/// Number of days that a layout wants from the forecast; 0 where it shows no
/// weather.
pub open spec fn days_wanted(layout: WeatherLayout) -> u32 {
    match layout {
        WeatherLayout::Off => 0,
        WeatherLayout::One => 1,
        WeatherLayout::OnePlusFour => 5,
        WeatherLayout::Five => 5,
    }
}

/// The first `n` days of a forecast, or all where there are fewer.
pub open spec fn at_most(days: Seq<DayView>, n: int) -> Seq<DayView> {
    if days.len() <= n {
        days
    } else {
        days.take(n)
    }
}

/// Number of days the configured layout wants from the forecast. Returns 0 when
/// no weather is shown — used to skip the network call entirely.
pub fn forecast_days(layout: WeatherLayout) -> (r: u32)
    ensures
        r == days_wanted(layout),
{
    match layout {
        WeatherLayout::Off => 0,
        WeatherLayout::One => 1,
        WeatherLayout::OnePlusFour | WeatherLayout::Five => 5,
    }
}

/// Date / time / weather overlay. Captures its config at construction; per
/// request, `weather_request` says what to fetch and `ready` takes the answer.
#[derive(Debug)]
pub struct Infobox {
    pub cfg: InfoboxConfig,
}

/// An infobox with all that one request shows.
#[derive(Debug)]
pub struct ReadyInfobox<'a> {
    pub cfg: &'a InfoboxConfig,
    pub now: UtcTime,
    pub tz: &'a Timezone,
    /// One entry per day starting from "today" (index 0). Empty when the
    /// configured layout doesn't request weather, or when the fetch failed.
    pub weather: Vec<DailyWeather>,
    /// True iff a weather fetch was attempted *and* failed. Distinguishes
    /// "weather not requested" (no degradation) from "weather fetch failed"
    /// (degraded — retry sooner).
    pub weather_failed: bool,
}

/// The day and date lines.
pub open spec fn header_lines(layout: HeaderLayout, date: LocalDate) -> Seq<Seq<char>> {
    match layout {
        HeaderLayout::Off => Seq::empty(),
        HeaderLayout::Day => seq![weekday_text(date.weekday)],
        HeaderLayout::Date => seq![date_line(date)],
        HeaderLayout::DayDate => seq![weekday_text(date.weekday), date_line(date)],
    }
}

/// The line for today's weather: its icon and temperature range, or a short
/// status where there is no weather.
pub open spec fn today_tree(weather: Seq<DayView>, units: Units, color: ColorConfig) -> NodeView {
    let (icon, text) = if weather.len() > 0 {
        (
            icon_for(Some(weather[0].weather_code)),
            weather[0].temperature_min + "–"@ + weather[0].temperature_max + suffix(units),
        )
    } else {
        (icon_for(None), "Weather error"@)
    };
    NodeView {
        style: BoxStyle::Plain,
        drawable: Some(
            DrawableView::IconText { icon, icon_size: 130, gap: 30, text, text_size: 100, color },
        ),
        children: Seq::empty(),
    }
}

/// The row of cells for the days from index `first` of the forecast on.
pub open spec fn forecast_row(
    cfg: InfoboxConfig,
    style: CellStyle,
    timezone: Seq<char>,
    now: int,
    first: int,
    weather: Seq<DayView>,
) -> NodeView {
    row_tree(style, timezone, now, first, weather.skip(first), cfg.units, cfg.foreground)
}

/// The weather panel: a line for today, with a row of cells for the days after it
/// or not, or one row of cells that starts with today.
pub open spec fn panel(
    cfg: InfoboxConfig,
    timezone: Seq<char>,
    now: int,
    weather: Seq<DayView>,
) -> Seq<NodeView> {
    let today = today_tree(weather, cfg.units, cfg.foreground);
    match cfg.weather_layout {
        WeatherLayout::Off => Seq::empty(),
        WeatherLayout::One => seq![today],
        WeatherLayout::OnePlusFour => if weather.len() >= 2 {
            seq![today, forecast_row(cfg, one_plus_four_cells(), timezone, now, 1, weather)]
        } else {
            seq![today]
        },
        WeatherLayout::Five => if weather.len() >= 1 {
            seq![forecast_row(cfg, five_cells(), timezone, now, 0, weather)]
        } else {
            Seq::empty()
        },
    }
}

/// The header as boxes.
pub open spec fn header(cfg: InfoboxConfig, timezone: Seq<char>, now: int) -> Seq<NodeView> {
    header_lines(cfg.header_layout, date_of(timezone, now)).map_values(
        |line: Seq<char>| text_box(BoxStyle::Plain, line, 100, cfg.foreground),
    )
}

/// The whole infobox: header above weather on a rounded background, or nothing
/// where both are empty.
pub open spec fn infobox_tree(
    cfg: InfoboxConfig,
    timezone: Seq<char>,
    now: int,
    weather: Seq<DayView>,
) -> Option<NodeView> {
    let children = header(cfg, timezone, now) + panel(cfg, timezone, now, weather);
    if children.len() == 0 {
        None
    } else {
        Some(
            NodeView {
                style: BoxStyle::Stack { padding: 60, gap: 20 },
                drawable: Some(DrawableView::Background { color: cfg.background, radius: 60 }),
                children,
            },
        )
    }
}

impl Infobox {
    pub fn new(cfg: InfoboxConfig) -> (r: Self)
        ensures
            r.cfg == cfg,
    {
        Infobox { cfg }
    }

    /// The URL to fetch the weather from; `None` where none is shown.
    pub fn weather_request(&self, tz: &Timezone) -> (r: Option<String>)
        ensures
            match r {
                Some(url) => self.cfg.weather_layout != WeatherLayout::Off && url@
                    == forecast_request(
                    self.cfg.latitude@,
                    self.cfg.longitude@,
                    tz@,
                    self.cfg.units,
                    days_wanted(self.cfg.weather_layout),
                ),
                None => self.cfg.weather_layout == WeatherLayout::Off,
            },
    {
        let days: u32 = forecast_days(self.cfg.weather_layout);
        if days == 0 {
            return None;
        }
        Some(
            forecast_url(
                self.cfg.latitude.as_str(),
                self.cfg.longitude.as_str(),
                tz.name(),
                self.cfg.units,
                days,
            ),
        )
    }

    /// The infobox for a request at `now`, where `reply` is the forecast that was
    /// fetched, or `None` where there is none. Days beyond those asked for are left
    /// out.
    pub fn ready<'a>(
        &'a self,
        now: UtcTime,
        tz: &'a Timezone,
        reply: Option<Vec<DailyWeather>>,
    ) -> (r: ReadyInfobox<'a>)
        ensures
            *r.cfg == self.cfg,
            r.now == now,
            *r.tz == *tz,
            r.weather_failed == (self.cfg.weather_layout != WeatherLayout::Off && reply is None),
            days_of(r.weather@) == match reply {
                Some(days) => at_most(days_of(days@), days_wanted(self.cfg.weather_layout) as int),
                None => Seq::empty(),
            },
    {
        let wanted: u32 = forecast_days(self.cfg.weather_layout);
        let (weather, weather_failed) = match reply {
            Some(days) => {
                let mut kept = days;
                kept.truncate(wanted as usize);
                assert(days_of(kept@) == at_most(days_of(days@), wanted as int));
                (kept, false)
            },
            None => (Vec::new(), wanted > 0),
        };
        ReadyInfobox { cfg: &self.cfg, now, tz, weather, weather_failed }
    }
}

impl<'a> ReadyInfobox<'a> {
    /// Whether the infobox lacks something that it was to show.
    pub fn degraded(&self) -> (r: bool)
        ensures
            r == self.weather_failed,
    {
        self.weather_failed
    }

    fn today_line(&self) -> (r: Node)
        ensures
            r.tree() == today_tree(days_of(self.weather@), self.cfg.units, self.cfg.foreground),
    {
        let (icon, text) = if self.weather.len() > 0 {
            let w = &self.weather[0];
            assert(days_of(self.weather@)[0] == w@);
            let range = joined(
                joined(w.temperature_min.clone(), "–"),
                w.temperature_max.as_str(),
            );
            (
                wmo_icon(Some(w.weather_code)),
                joined(range, self.cfg.units.temperature_suffix()),
            )
        } else {
            (wmo_icon(None), "Weather error".to_owned())
        };
        leaf(
            BoxStyle::Plain,
            Drawable::IconText {
                icon,
                icon_size: 130,
                gap: 30,
                text,
                text_size: 100,
                color: self.cfg.foreground,
            },
        )
    }

    /// Whether the days in a row of cells lie within the calendar.
    pub open spec fn within_calendar(&self) -> bool {
        (self.cfg.weather_layout == WeatherLayout::OnePlusFour || self.cfg.weather_layout
            == WeatherLayout::Five) && self.weather@.len() >= 1 ==> days_later(
            self.now@,
            self.weather@.len() - 1,
        ) <= latest()
    }

    /// What the infobox is painted from, or nothing where neither a header nor
    /// weather is shown.
    pub fn scene(&self) -> (r: Option<Node>)
        requires
            self.within_calendar(),
        ensures
            match r {
                Some(node) => infobox_tree(
                    *self.cfg,
                    self.tz@,
                    self.now@,
                    days_of(self.weather@),
                ) == Some(node.tree()),
                None => infobox_tree(*self.cfg, self.tz@, self.now@, days_of(self.weather@))
                    is None,
            },
    {
        let cfg = self.cfg;
        let date = self.tz.date(self.now);
        let fg: ColorConfig = cfg.foreground;
        let mut children: Vec<Node> = Vec::new();
        let day: bool = match cfg.header_layout {
            HeaderLayout::Day | HeaderLayout::DayDate => true,
            _ => false,
        };
        if day {
            let name = weekday_name(date.weekday).to_owned();
            children.push(text_leaf(BoxStyle::Plain, name, 100, fg));
        }
        let dated: bool = match cfg.header_layout {
            HeaderLayout::Date | HeaderLayout::DayDate => true,
            _ => false,
        };
        if dated {
            children.push(text_leaf(BoxStyle::Plain, date_text(date), 100, fg));
        }
        let ghost head = header(*cfg, self.tz@, self.now@);
        let ghost weather = days_of(self.weather@);
        assert(trees(children@) == head);
        match cfg.weather_layout {
            WeatherLayout::Off => {},
            WeatherLayout::One => {
                children.push(self.today_line());
            },
            WeatherLayout::OnePlusFour => {
                children.push(self.today_line());
                if self.weather.len() >= 2 {
                    children.push(
                        compact_cell_row(
                            CellStyle::one_plus_four(),
                            self.tz,
                            self.now,
                            self.weather.as_slice(),
                            1,
                            cfg.units,
                            fg,
                        ),
                    );
                }
            },
            WeatherLayout::Five => {
                if self.weather.len() >= 1 {
                    children.push(
                        compact_cell_row(
                            CellStyle::five(),
                            self.tz,
                            self.now,
                            self.weather.as_slice(),
                            0,
                            cfg.units,
                            fg,
                        ),
                    );
                }
            },
        }
        assert(trees(children@) == head + panel(*cfg, self.tz@, self.now@, weather));
        assert(trees(children@).len() == children@.len());
        if children.len() == 0 {
            return None;
        }
        Some(
            branch(
                BoxStyle::Stack { padding: 60, gap: 20 },
                Some(Drawable::Background { color: cfg.background, radius: 60 }),
                children,
            ),
        )
    }
}

// ----- Laws --------------------------------------------------------------------------------------------

/// With both sections off nothing is painted; else something is, except for a row
/// that starts with today where there is no weather.
pub proof fn law_empty_layout_is_a_noop(
    cfg: InfoboxConfig,
    timezone: Seq<char>,
    now: int,
    weather: Seq<DayView>,
)
    ensures
        infobox_tree(cfg, timezone, now, weather) is None <==> cfg.header_layout
            == HeaderLayout::Off && (cfg.weather_layout == WeatherLayout::Off || (
        cfg.weather_layout == WeatherLayout::Five && weather.len() == 0)),
{
}

/// The header does not depend on the weather, and stays where it fails.
pub proof fn law_header_stays_without_weather(
    cfg: InfoboxConfig,
    timezone: Seq<char>,
    now: int,
    weather: Seq<DayView>,
)
    requires
        cfg.header_layout != HeaderLayout::Off,
    ensures
        infobox_tree(cfg, timezone, now, weather) matches Some(t) && t.children.take(
            header_lines(cfg.header_layout, date_of(timezone, now)).len() as int,
        ) == header(cfg, timezone, now),
{
    let h = header(cfg, timezone, now);
    let t = infobox_tree(cfg, timezone, now, weather)->0;
    assert(t.children.take(h.len() as int) == h);
}

/// Where today has a line of its own, failed weather still shows the line, with a
/// status in place of temperatures.
pub proof fn law_failed_weather_says_so(
    cfg: InfoboxConfig,
    timezone: Seq<char>,
    now: int,
)
    requires
        cfg.weather_layout == WeatherLayout::One || cfg.weather_layout
            == WeatherLayout::OnePlusFour,
    ensures
        panel(cfg, timezone, now, Seq::empty()) == seq![
            today_tree(Seq::empty(), cfg.units, cfg.foreground),
        ],
        today_tree(Seq::empty(), cfg.units, cfg.foreground).drawable matches Some(
            DrawableView::IconText { icon, text, .. },
        ) && icon == icon_for(None) && text == "Weather error"@,
{
}

/// Both kinds of row show each of their days in the cell for its date: the day at
/// index `i` of the forecast in the cell for `i` days after now.
pub proof fn law_cells_follow_the_calendar(
    cfg: InfoboxConfig,
    style: CellStyle,
    timezone: Seq<char>,
    now: int,
    first: int,
    weather: Seq<DayView>,
    i: int,
)
    requires
        0 <= first <= i < weather.len(),
    ensures
        forecast_row(cfg, style, timezone, now, first, weather).children.len() == weather.len()
            - first,
        forecast_row(cfg, style, timezone, now, first, weather).children[i - first] == day_cell(
            style,
            timezone,
            now,
            i,
            weather[i],
            cfg.units,
            cfg.foreground,
        ),
{
}

/// Today's line, where there is weather, shows the first day of the forecast: the icon
/// of its code, its lowest temperature, an en dash, its highest temperature and the
/// unit; all in the foreground colour.
pub proof fn law_todays_line_shows_the_first_day(
    cfg: InfoboxConfig,
    timezone: Seq<char>,
    now: int,
    weather: Seq<DayView>,
)
    requires
        weather.len() > 0,
        cfg.weather_layout == WeatherLayout::One || cfg.weather_layout
            == WeatherLayout::OnePlusFour,
    ensures
        panel(cfg, timezone, now, weather).len() > 0,
        panel(cfg, timezone, now, weather)[0].children.len() == 0,
        panel(cfg, timezone, now, weather)[0].drawable == Some(
            DrawableView::IconText {
                icon: icon_for(Some(weather[0].weather_code)),
                icon_size: 130,
                gap: 30,
                text: weather[0].temperature_min + "–"@ + weather[0].temperature_max
                    + match cfg.units {
                    Units::Metric => "°C"@,
                    Units::Imperial => "°F"@,
                },
                text_size: 100,
                color: cfg.foreground,
            },
        ),
{
}

/// Today's line depends on the first day alone: two forecasts that begin with the
/// same day have the same line, however they go on.
pub proof fn law_todays_line_depends_on_today_alone(
    cfg: InfoboxConfig,
    timezone: Seq<char>,
    now: int,
    weather: Seq<DayView>,
    other: Seq<DayView>,
)
    requires
        weather.len() > 0,
        other.len() > 0,
        weather[0] == other[0],
        cfg.weather_layout == WeatherLayout::One || cfg.weather_layout
            == WeatherLayout::OnePlusFour,
    ensures
        panel(cfg, timezone, now, weather)[0] == panel(cfg, timezone, now, other)[0],
        cfg.weather_layout == WeatherLayout::One ==> panel(cfg, timezone, now, weather) == panel(
            cfg,
            timezone,
            now,
            other,
        ),
{
}

/// How many boxes each layout has for the weather: a line for today, a line and a
/// row, or a row alone; a row has a cell for each of its days.
pub proof fn law_layouts_have_their_boxes(
    cfg: InfoboxConfig,
    timezone: Seq<char>,
    now: int,
    weather: Seq<DayView>,
)
    ensures
        ({
            let boxes = panel(cfg, timezone, now, weather);
            match cfg.weather_layout {
                WeatherLayout::Off => boxes.len() == 0,
                WeatherLayout::One => boxes.len() == 1,
                WeatherLayout::OnePlusFour => if weather.len() >= 2 {
                    boxes.len() == 2 && boxes[1].children.len() == weather.len() - 1
                        && boxes[1].style == (BoxStyle::Row { gap: 20, top: 7 })
                } else {
                    boxes.len() == 1
                },
                WeatherLayout::Five => if weather.len() >= 1 {
                    boxes.len() == 1 && boxes[0].children.len() == weather.len() && boxes[0].style
                        == (BoxStyle::Row { gap: 17, top: 0 })
                } else {
                    boxes.len() == 0
                },
            }
        }),
{
}

/// In the layouts with cells, day `i` of the forecast stands in the cell for the date
/// `i` days after now: weekday, icon, highest temperature and lowest temperature of
/// that day from top to bottom, in the foreground colour and the layout's sizes.
/// Below a line for today the cells begin with tomorrow, else with today.
pub proof fn law_each_cell_shows_its_day(
    cfg: InfoboxConfig,
    timezone: Seq<char>,
    now: int,
    weather: Seq<DayView>,
    i: int,
)
    requires
        cfg.weather_layout == WeatherLayout::OnePlusFour || cfg.weather_layout
            == WeatherLayout::Five,
        0 <= i < weather.len(),
        cfg.weather_layout == WeatherLayout::OnePlusFour ==> i > 0,
    ensures
        ({
            let five = cfg.weather_layout == WeatherLayout::Five;
            let row = if five {
                panel(cfg, timezone, now, weather)[0]
            } else {
                panel(cfg, timezone, now, weather)[1]
            };
            let cell = if five {
                row.children[i]
            } else {
                row.children[i - 1]
            };
            let date = date_of(timezone, now + i * (86_400 * 1_000_000_000));
            let unit = match cfg.units {
                Units::Metric => "°C"@,
                Units::Imperial => "°F"@,
            };
            &&& cell.children.len() == 4
            &&& cell.children[0].drawable == Some(
                DrawableView::Text {
                    content: weekday_letters(date.weekday),
                    size: if five {
                        60
                    } else {
                        73
                    },
                    color: cfg.foreground,
                },
            )
            &&& cell.children[1].drawable == Some(
                DrawableView::Icon {
                    glyph: icon_for(Some(weather[i].weather_code)),
                    size: if five {
                        80
                    } else {
                        93
                    },
                    color: cfg.foreground,
                },
            )
            &&& cell.children[2].drawable == Some(
                DrawableView::Text {
                    content: weather[i].temperature_max + unit,
                    size: if five {
                        47
                    } else {
                        53
                    },
                    color: cfg.foreground,
                },
            )
            &&& cell.children[3].drawable == Some(
                DrawableView::Text {
                    content: weather[i].temperature_min + unit,
                    size: if five {
                        47
                    } else {
                        53
                    },
                    color: cfg.foreground,
                },
            )
        }),
{
    let first: int = if cfg.weather_layout == WeatherLayout::Five {
        0
    } else {
        1
    };
    let style = if cfg.weather_layout == WeatherLayout::Five {
        five_cells()
    } else {
        one_plus_four_cells()
    };
    law_cells_follow_the_calendar(cfg, style, timezone, now, first, weather, i);
    assert(days_later(now, i) == now + i * (86_400 * 1_000_000_000));
}

/// The header shows the weekday, the date or both, in this order, of the day that it
/// is in the time zone; each on a line of its own in the foreground colour.
pub proof fn law_header_shows_the_day_and_the_date(
    cfg: InfoboxConfig,
    timezone: Seq<char>,
    now: int,
)
    ensures
        ({
            let lines = header(cfg, timezone, now);
            let date = date_of(timezone, now);
            let day = Some(
                DrawableView::Text {
                    content: weekday_text(date.weekday),
                    size: 100,
                    color: cfg.foreground,
                },
            );
            let dated = Some(
                DrawableView::Text {
                    content: decimal(date.day as nat) + " "@ + month_text(date.month) + " "@
                        + signed_decimal(date.year as int),
                    size: 100,
                    color: cfg.foreground,
                },
            );
            match cfg.header_layout {
                HeaderLayout::Off => lines.len() == 0,
                HeaderLayout::Day => lines.len() == 1 && lines[0].drawable == day,
                HeaderLayout::Date => lines.len() == 1 && lines[0].drawable == dated,
                HeaderLayout::DayDate => lines.len() == 2 && lines[0].drawable == day
                    && lines[1].drawable == dated,
            }
        }),
{
}

/// The infobox is its header lines and then its weather, on a rounded background of
/// the configured colour.
pub proof fn law_infobox_is_header_then_weather(
    cfg: InfoboxConfig,
    timezone: Seq<char>,
    now: int,
    weather: Seq<DayView>,
)
    ensures
        infobox_tree(cfg, timezone, now, weather) matches Some(t) ==> t.children == header(
            cfg,
            timezone,
            now,
        ) + panel(cfg, timezone, now, weather) && t.drawable == Some(
            DrawableView::Background { color: cfg.background, radius: 60 },
        ) && t.style == (BoxStyle::Stack { padding: 60, gap: 20 }),
        infobox_tree(cfg, timezone, now, weather) is None <==> header(cfg, timezone, now).len() == 0
            && panel(cfg, timezone, now, weather).len() == 0,
{
}

/// Days keep their order and their values, and only as many are kept as were asked
/// for: one for the line, five for the layouts with cells, none without weather.
pub proof fn law_forecast_is_cut_to_what_was_asked(
    layout: WeatherLayout,
    days: Seq<DayView>,
    i: int,
)
    ensures
        ({
            let kept = at_most(days, days_wanted(layout) as int);
            let wanted: int = match layout {
                WeatherLayout::Off => 0,
                WeatherLayout::One => 1,
                WeatherLayout::OnePlusFour | WeatherLayout::Five => 5,
            };
            &&& kept.len() == if days.len() <= wanted {
                days.len() as int
            } else {
                wanted
            }
            &&& 0 <= i < kept.len() ==> kept[i] == days[i]
        }),
{
}

/// The icon for each kind of weather in the WMO table: clear, mainly clear, partly
/// cloudy, overcast, fog, drizzle, showers, freezing, rain, snow, snow grains and
/// thunderstorm; every other code, and none at all, has the icon for no data.
pub proof fn law_icon_for_each_kind_of_weather(code: u32)
    ensures
        code == 0 ==> icon_for(Some(code)) == '\u{F00D}',
        code == 1 ==> icon_for(Some(code)) == '\u{F00C}',
        code == 2 ==> icon_for(Some(code)) == '\u{F002}',
        code == 3 ==> icon_for(Some(code)) == '\u{F013}',
        code == 45 || code == 48 ==> icon_for(Some(code)) == '\u{F014}',
        code == 51 || code == 53 ==> icon_for(Some(code)) == '\u{F01C}',
        code == 55 || 80 <= code <= 82 ==> icon_for(Some(code)) == '\u{F01A}',
        code == 56 || code == 57 || code == 66 || code == 67 ==> icon_for(Some(code)) == '\u{F017}',
        code == 61 || code == 63 || code == 65 ==> icon_for(Some(code)) == '\u{F019}',
        code == 71 || code == 73 || code == 75 || code == 85 || code == 86 ==> icon_for(Some(code))
            == '\u{F01B}',
        code == 77 ==> icon_for(Some(code)) == '\u{F076}',
        code == 95 || code == 96 || code == 99 ==> icon_for(Some(code)) == '\u{F01E}',
        icon_for(Some(code)) == icon_for(None) <==> !(code <= 3 || code == 45 || code == 48 || code
            == 51 || code == 53 || code == 55 || code == 56 || code == 57 || code == 61 || code
            == 63 || code == 65 || code == 66 || code == 67 || code == 71 || code == 73 || code
            == 75 || code == 77 || (80 <= code <= 82) || code == 85 || code == 86 || code == 95
            || code == 96 || code == 99),
        icon_for(None) == '\u{F07B}',
{
}

/// A weekday's letters are the first three of its name.
pub proof fn law_letters_begin_the_weekday(weekday: u32)
    requires
        weekday <= 6,
    ensures
        weekday_letters(weekday).len() == 3,
        weekday_letters(weekday) == weekday_text(weekday).take(3),
{
    reveal_strlit("Sun");
    reveal_strlit("Mon");
    reveal_strlit("Tue");
    reveal_strlit("Wed");
    reveal_strlit("Thu");
    reveal_strlit("Fri");
    reveal_strlit("Sat");
    reveal_strlit("Sunday");
    reveal_strlit("Monday");
    reveal_strlit("Tuesday");
    reveal_strlit("Wednesday");
    reveal_strlit("Thursday");
    reveal_strlit("Friday");
    reveal_strlit("Saturday");
    assert(weekday_letters(weekday) =~= weekday_text(weekday).take(3));
}

/// What is asked of the weather service: the place, the three daily values, as many
/// days as the layout shows, the time zone and the units.
pub proof fn law_request_names_place_days_and_units(
    latitude: Seq<char>,
    longitude: Seq<char>,
    timezone: Seq<char>,
    layout: WeatherLayout,
)
    ensures
        ({
            let wanted: nat = match layout {
                WeatherLayout::Off => 0,
                WeatherLayout::One => 1,
                WeatherLayout::OnePlusFour | WeatherLayout::Five => 5,
            };
            let start = "https://api.open-meteo.com/v1/forecast?latitude="@ + latitude
                + "&longitude="@ + longitude
                + "&daily=temperature_2m_max,temperature_2m_min,weather_code&forecast_days="@
                + decimal(wanted) + "&timezone="@ + timezone + "&temperature_unit="@;
            &&& forecast_request(
                latitude,
                longitude,
                timezone,
                Units::Metric,
                days_wanted(layout),
            ) == start + "celsius"@ + "&wind_speed_unit="@ + "kmh"@
            &&& forecast_request(
                latitude,
                longitude,
                timezone,
                Units::Imperial,
                days_wanted(layout),
            ) == start + "fahrenheit"@ + "&wind_speed_unit="@ + "mph"@
        }),
{
}

} // verus!
