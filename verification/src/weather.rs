//! The weather forecast: what is asked of the service and what its answer says.

use crate::config::Units;
use crate::text::{decimal, decimal_of, joined};
use vstd::prelude::*;

verus! {

/// Per-day weather summary in the display's local time zone. The multi-day
/// layouts use a list where index 0 is "today" and successive entries are the
/// following days.
#[derive(Debug)]
pub struct DailyWeather {
    /// In whole degrees, in decimal notation.
    pub temperature_min: String,
    /// In whole degrees, in decimal notation.
    pub temperature_max: String,
    /// WMO 4677 weather code: the dominant code for the day.
    pub weather_code: u32,
}

/// A `DailyWeather` with its texts as sequences of characters.
pub ghost struct DayView {
    pub temperature_min: Seq<char>,
    pub temperature_max: Seq<char>,
    pub weather_code: u32,
}

impl View for DailyWeather {
    type V = DayView;

    open spec fn view(&self) -> DayView {
        DayView {
            temperature_min: self.temperature_min@,
            temperature_max: self.temperature_max@,
            weather_code: self.weather_code,
        }
    }
}

impl Clone for DailyWeather {
    fn clone(&self) -> (r: Self)
        ensures
            r@ == self@,
    {
        DailyWeather {
            temperature_min: self.temperature_min.clone(),
            temperature_max: self.temperature_max.clone(),
            weather_code: self.weather_code,
        }
    }
}

/// The days of a list.
pub open spec fn days_of(list: Seq<DailyWeather>) -> Seq<DayView> {
    list.map_values(|d: DailyWeather| d@)
}

// ----- The request -------------------------------------------------------------------------------

/// What a unit of temperature is called in a request.
pub open spec fn temperature_unit(units: Units) -> Seq<char> {
    match units {
        Units::Metric => "celsius"@,
        Units::Imperial => "fahrenheit"@,
    }
}

/// What a unit of wind speed is called in a request.
pub open spec fn wind_unit(units: Units) -> Seq<char> {
    match units {
        Units::Metric => "kmh"@,
        Units::Imperial => "mph"@,
    }
}

/// The request for `days` daily forecasts at a place.
pub open spec fn forecast_request(
    latitude: Seq<char>,
    longitude: Seq<char>,
    timezone: Seq<char>,
    units: Units,
    days: u32,
) -> Seq<char> {
    "https://api.open-meteo.com/v1/forecast?latitude="@ + latitude + "&longitude="@ + longitude
        + "&daily=temperature_2m_max,temperature_2m_min,weather_code&forecast_days="@ + decimal(
        days as nat,
    ) + "&timezone="@ + timezone + "&temperature_unit="@ + temperature_unit(units)
        + "&wind_speed_unit="@ + wind_unit(units)
}

/// The URL to fetch `days` consecutive daily forecasts from, starting today. The
/// coordinates are in decimal notation.
pub fn forecast_url(latitude: &str, longitude: &str, timezone: &str, units: Units, days: u32) -> (r:
    String)
    ensures
        r@ == forecast_request(latitude@, longitude@, timezone@, units, days),
{
    let (temperature, wind) = match units {
        Units::Metric => ("celsius", "kmh"),
        Units::Imperial => ("fahrenheit", "mph"),
    };
    let a = joined("https://api.open-meteo.com/v1/forecast?latitude=".to_owned(), latitude);
    let b = joined(joined(a, "&longitude="), longitude);
    let c = joined(
        b,
        "&daily=temperature_2m_max,temperature_2m_min,weather_code&forecast_days=",
    );
    let d = joined(c, decimal_of(days as u64).as_str());
    let e = joined(joined(d, "&timezone="), timezone);
    let f = joined(joined(e, "&temperature_unit="), temperature);
    joined(joined(f, "&wind_speed_unit="), wind)
}

// ----- The answer ----------------------------------------------------------------------------------

/// How many days three lists have values for.
pub open spec fn common_length(a: nat, b: nat, c: nat) -> nat {
    let ab = if a <= b {
        a
    } else {
        b
    };
    if ab <= c {
        ab
    } else {
        c
    }
}

/// The answer names no day.
#[derive(Debug, Clone, Copy, PartialEq, Eq, Structural)]
pub struct NoDays;

impl NoDays {
    /// What went wrong, in words.
    pub fn message(&self) -> (r: String)
        ensures
            r@ == "weather response had no daily entries"@,
    {
        "weather response had no daily entries".to_owned()
    }
}

/// The days of an answer, given as one list per value: as many as all three lists
/// have, in their order.
pub fn daily_entries(max: &[String], min: &[String], codes: &[u32]) -> (r: Result<
    Vec<DailyWeather>,
    NoDays,
>)
    ensures
        ({
            let n = common_length(max@.len(), min@.len(), codes@.len());
            match r {
                Ok(days) => n > 0 && days_of(days@) == Seq::new(
                    n,
                    |i: int|
                        DayView {
                            temperature_min: min@[i]@,
                            temperature_max: max@[i]@,
                            weather_code: codes@[i],
                        },
                ),
                Err(_) => n == 0,
            }
        }),
{
    let mut n: usize = max.len();
    if min.len() < n {
        n = min.len();
    }
    if codes.len() < n {
        n = codes.len();
    }
    if n == 0 {
        return Err(NoDays);
    }
    let mut out: Vec<DailyWeather> = Vec::new();
    let mut i: usize = 0;
    while i < n
        invariant
            n == common_length(max@.len(), min@.len(), codes@.len()),
            i <= n,
            days_of(out@) == Seq::new(
                i as nat,
                |k: int|
                    DayView {
                        temperature_min: min@[k]@,
                        temperature_max: max@[k]@,
                        weather_code: codes@[k],
                    },
            ),
        decreases n - i,
    {
        let day = DailyWeather {
            temperature_min: min[i].clone(),
            temperature_max: max[i].clone(),
            weather_code: codes[i],
        };
        let ghost before = days_of(out@);
        let ghost added = day@;
        out.push(day);
        assert(days_of(out@) == before.push(added));
        i = i + 1;
    }
    Ok(out)
}

// ----- Laws ------------------------------------------------------------------------------------------

/// As many days count as the shortest of the three lists has.
pub proof fn law_shortest_list_counts(a: nat, b: nat, c: nat)
    ensures
        common_length(a, b, c) <= a,
        common_length(a, b, c) <= b,
        common_length(a, b, c) <= c,
        common_length(a, b, c) == a || common_length(a, b, c) == b || common_length(a, b, c) == c,
{
}

/// The request is the same for every place but for the place, for every number of
/// days but for the number, and for every zone but for the zone.
pub proof fn law_request_spells_out_its_parts(
    latitude: Seq<char>,
    longitude: Seq<char>,
    timezone: Seq<char>,
    days: u32,
)
    ensures
        forecast_request(latitude, longitude, timezone, Units::Metric, days)
            == "https://api.open-meteo.com/v1/forecast?latitude="@ + latitude + "&longitude="@
            + longitude + "&daily=temperature_2m_max,temperature_2m_min,weather_code&forecast_days="@
            + decimal(days as nat) + "&timezone="@ + timezone + "&temperature_unit="@ + "celsius"@
            + "&wind_speed_unit="@ + "kmh"@,
        forecast_request(latitude, longitude, timezone, Units::Imperial, days)
            == "https://api.open-meteo.com/v1/forecast?latitude="@ + latitude + "&longitude="@
            + longitude + "&daily=temperature_2m_max,temperature_2m_min,weather_code&forecast_days="@
            + decimal(days as nat) + "&timezone="@ + timezone + "&temperature_unit="@ + "fahrenheit"@
            + "&wind_speed_unit="@ + "mph"@,
{
}

} // verus!
