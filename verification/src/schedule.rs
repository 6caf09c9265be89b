//! Rotation schedules and time zones: what the calendar crates compute, behind
//! plain values.

use crate::clock::{moment, UtcTime, MAX_SECS, MIN_SECS, NANOS_PER_SEC};
use crate::text::{chars_of, joined, spells};
use chrono::{DateTime, Datelike, Offset};
use std::str::FromStr;
use vstd::prelude::*;

verus! {

// ----- What the outside crates compute --------------------------------------------------

/// Whether `name` is a time zone name of the IANA database that `chrono_tz` carries.
pub uninterp spec fn known_timezone(name: Seq<char>) -> bool;

/// `chrono_tz::Tz::from_str`: the name is looked up among the IANA names, letter
/// for letter.
#[verifier::external_body]
fn timezone_exists(name: &str) -> (r: bool)
    ensures
        r == known_timezone(name@),
{
    chrono_tz::Tz::from_str(name).is_ok()
}

/// What `cron` has against an expression; `None` where it accepts it.
pub uninterp spec fn cron_complaint(source: Seq<char>) -> Option<Seq<char>>;

/// `cron::Schedule::from_str`, of which only the error's text is kept.
#[verifier::external_body]
fn cron_rejects(source: &str) -> (r: Option<String>)
    ensures
        match r {
            Some(m) => cron_complaint(source@) == Some(m@),
            None => cron_complaint(source@) is None,
        },
{
    cron::Schedule::from_str(source).err().map(|e| e.to_string())
}

/// What `cron_lingo` has against an expression; `None` where it accepts it.
pub uninterp spec fn lingo_complaint(source: Seq<char>) -> Option<Seq<char>>;

/// `cron_lingo::Schedule::from_str`, of which only the error's debug text is kept.
#[verifier::external_body]
fn lingo_rejects(source: &str) -> (r: Option<String>)
    ensures
        match r {
            Some(m) => lingo_complaint(source@) == Some(m@),
            None => lingo_complaint(source@) is None,
        },
{
    cron_lingo::Schedule::from_str(source).err().map(|e| format!("{e:?}"))
}

/// The trigger number `index` that `cron` lists for an expression, starting from
/// the moment `secs`, `nanos` as seen in the time zone; as whole seconds and
/// nanoseconds since the epoch.
pub uninterp spec fn cron_listing(
    source: Seq<char>,
    timezone: Seq<char>,
    secs: i64,
    nanos: u32,
    index: nat,
) -> Option<(i64, u32)>;

/// `cron::Schedule::after`: the listing is taken in the time zone and its item
/// number `index` handed out.
#[verifier::external_body]
fn cron_trigger(source: &str, timezone: &str, secs: i64, nanos: u32, index: usize) -> (r: Option<
    (i64, u32),
>)
    requires
        cron_complaint(source@) is None,
        known_timezone(timezone@),
        MIN_SECS <= secs <= MAX_SECS,
        nanos < NANOS_PER_SEC,
    ensures
        r == cron_listing(source@, timezone@, secs, nanos, index as nat),
{
    let schedule = cron::Schedule::from_str(source).ok()?;
    let tz = chrono_tz::Tz::from_str(timezone).ok()?;
    let start = DateTime::from_timestamp(secs, nanos)?.with_timezone(&tz);
    let found = schedule.after(&start).nth(index)?;
    Some((found.timestamp(), found.timestamp_subsec_nanos()))
}

/// The seconds that local time in a time zone is ahead of UTC at a moment.
pub uninterp spec fn offset_at(timezone: Seq<char>, secs: i64, nanos: u32) -> i32;

/// `chrono::DateTime::offset` in a `chrono_tz` time zone.
#[verifier::external_body]
fn local_offset(timezone: &str, secs: i64, nanos: u32) -> (r: i32)
    requires
        known_timezone(timezone@),
        MIN_SECS <= secs <= MAX_SECS,
        nanos < NANOS_PER_SEC,
    ensures
        r == offset_at(timezone@, secs, nanos),
{
    let tz = chrono_tz::Tz::from_str(timezone).unwrap();
    let at = DateTime::from_timestamp(secs, nanos).unwrap();
    at.with_timezone(&tz).offset().fix().local_minus_utc()
}

/// Whether `cron_lingo` can answer with that trigger for an expression, at a
/// local time `offset` seconds ahead of UTC: as whole seconds and nanoseconds since
/// the epoch.
pub uninterp spec fn lingo_answer(
    source: Seq<char>,
    offset: i32,
    trigger: Option<(i64, u32)>,
) -> bool;

/// `cron_lingo::Schedule::iter` with `assume_offset`: the first trigger after the
/// system clock's present, at the given offset. Which one it is depends on the
/// clock, so an expression has many answers; of each the time of day at that
/// offset is a whole minute, as all times in such an expression are.
#[verifier::external_body]
fn lingo_trigger(source: &str, offset: i32) -> (r: Option<(i64, u32)>)
    requires
        lingo_complaint(source@) is None,
    ensures
        lingo_answer(source@, offset, r),
        r matches Some(t) ==> t.1 == 0 && (t.0 + offset) % 60 == 0,
{
    let schedule = cron_lingo::Schedule::from_str(source).ok()?;
    let offset = time::UtcOffset::from_whole_seconds(offset).ok()?;
    let next = schedule.iter().ok()?.assume_offset(offset).next()?.ok()?;
    Some((next.unix_timestamp(), next.nanosecond()))
}

/// Year, month (1-12), day of the month, and weekday (0 for Sunday) of a moment
/// as seen in a time zone.
pub uninterp spec fn date_at(timezone: Seq<char>, secs: i64, nanos: u32) -> (i32, u32, u32, u32);

/// `chrono::Datelike` on a moment in a `chrono_tz` time zone. Months run from 1 to
/// 12 and weekdays from 0 to 6.
#[verifier::external_body]
fn calendar_date(timezone: &str, secs: i64, nanos: u32) -> (r: (i32, u32, u32, u32))
    requires
        known_timezone(timezone@),
        MIN_SECS <= secs <= MAX_SECS,
        nanos < NANOS_PER_SEC,
    ensures
        r == date_at(timezone@, secs, nanos),
        1 <= r.1 <= 12,
        r.3 <= 6,
{
    let tz = chrono_tz::Tz::from_str(timezone).unwrap();
    let at = DateTime::from_timestamp(secs, nanos).unwrap().with_timezone(&tz);
    (at.year(), at.month(), at.day(), at.weekday().num_days_from_sunday())
}

// ----- Time zones --------------------------------------------------------------------------

/// An IANA time zone.
#[derive(Debug)]
pub struct Timezone {
    name: String,
}

impl View for Timezone {
    type V = Seq<char>;

    /// Its name.
    closed spec fn view(&self) -> Seq<char> {
        self.name@
    }
}

impl Clone for Timezone {
    fn clone(&self) -> (r: Self)
        ensures
            r@ == self@,
    {
        proof {
            use_type_invariant(self);
        }
        Timezone { name: self.name.clone() }
    }
}

/// A date on the calendar.
#[derive(Debug, Clone, Copy, PartialEq, Eq, Structural)]
pub struct LocalDate {
    pub year: i32,
    /// 1 to 12.
    pub month: u32,
    pub day: u32,
    /// 0 (Sunday) to 6.
    pub weekday: u32,
}

/// The date that a moment falls on in a time zone.
pub open spec fn date_of(timezone: Seq<char>, at: int) -> LocalDate {
    let d = date_at(
        timezone,
        (at / NANOS_PER_SEC as int) as i64,
        (at % (NANOS_PER_SEC as int)) as u32,
    );
    LocalDate { year: d.0, month: d.1, day: d.2, weekday: d.3 }
}

impl Timezone {
    #[verifier::type_invariant]
    spec fn known(self) -> bool {
        known_timezone(self.name@)
    }

    /// The time zone of that name.
    pub fn parse(name: &str) -> (r: Option<Timezone>)
        ensures
            r is Some <==> known_timezone(name@),
            r matches Some(tz) ==> tz@ == name@,
    {
        if timezone_exists(name) {
            Some(Timezone { name: name.to_owned() })
        } else {
            None
        }
    }

    /// Its IANA name.
    pub fn name(&self) -> (r: &str)
        ensures
            r@ == self@,
    {
        self.name.as_str()
    }

    /// The date at a moment.
    pub fn date(&self, at: UtcTime) -> (r: LocalDate)
        ensures
            r == date_of(self@, at@),
            1 <= r.month <= 12,
            r.weekday <= 6,
    {
        proof {
            use_type_invariant(self);
        }
        let (year, month, day, weekday) = calendar_date(
            self.name.as_str(),
            at.timestamp(),
            at.subsec_nanos(),
        );
        LocalDate { year, month, day, weekday }
    }
}

// ----- Schedules ---------------------------------------------------------------------------

/// A Quartz-style cron expression: `sec min hour dom mon dow [year]`.
#[derive(Debug)]
pub struct CronExpr {
    source: String,
}

impl View for CronExpr {
    type V = Seq<char>;

    closed spec fn view(&self) -> Seq<char> {
        self.source@
    }
}

impl CronExpr {
    #[verifier::type_invariant]
    spec fn accepted(self) -> bool {
        cron_complaint(self.source@) is None
    }
}

impl Clone for CronExpr {
    fn clone(&self) -> (r: Self)
        ensures
            r@ == self@,
    {
        proof {
            use_type_invariant(self);
        }
        CronExpr { source: self.source.clone() }
    }
}

/// A schedule in words, such as `at 2 AM and 2 PM on Mondays`.
#[derive(Debug)]
pub struct NaturalExpr {
    source: String,
}

impl View for NaturalExpr {
    type V = Seq<char>;

    closed spec fn view(&self) -> Seq<char> {
        self.source@
    }
}

impl NaturalExpr {
    #[verifier::type_invariant]
    spec fn accepted(self) -> bool {
        lingo_complaint(self.source@) is None
    }
}

impl Clone for NaturalExpr {
    fn clone(&self) -> (r: Self)
        ensures
            r@ == self@,
    {
        proof {
            use_type_invariant(self);
        }
        NaturalExpr { source: self.source.clone() }
    }
}

/// A rotation schedule, written either in cron syntax or in words.
#[derive(Debug)]
pub enum Rotate {
    Cron(CronExpr),
    Natural(NaturalExpr),
}

/// A `Rotate` by what was written.
pub ghost enum RotateView {
    Cron(Seq<char>),
    Natural(Seq<char>),
}

impl View for Rotate {
    type V = RotateView;

    open spec fn view(&self) -> RotateView {
        match self {
            Rotate::Cron(e) => RotateView::Cron(e@),
            Rotate::Natural(e) => RotateView::Natural(e@),
        }
    }
}

impl Clone for Rotate {
    fn clone(&self) -> (r: Self)
        ensures
            r@ == self@,
    {
        match self {
            Rotate::Cron(e) => Rotate::Cron(e.clone()),
            Rotate::Natural(e) => Rotate::Natural(e.clone()),
        }
    }
}

/// Why a schedule was not accepted.
#[derive(Debug)]
pub enum ScheduleError {
    /// Neither `cron` nor `natural`. Holds the key.
    UnknownKey(String),
    /// Not a cron expression. Holds it and what is wrong with it.
    InvalidCron(String, String),
    /// Not a schedule in words. Holds it and what is wrong with it.
    InvalidNatural(String, String),
}

/// A `ScheduleError` with its texts as sequences of characters.
pub ghost enum ScheduleErrorView {
    UnknownKey(Seq<char>),
    InvalidCron(Seq<char>, Seq<char>),
    InvalidNatural(Seq<char>, Seq<char>),
}

impl View for ScheduleError {
    type V = ScheduleErrorView;

    open spec fn view(&self) -> ScheduleErrorView {
        match self {
            ScheduleError::UnknownKey(k) => ScheduleErrorView::UnknownKey(k@),
            ScheduleError::InvalidCron(s, m) => ScheduleErrorView::InvalidCron(s@, m@),
            ScheduleError::InvalidNatural(s, m) => ScheduleErrorView::InvalidNatural(s@, m@),
        }
    }
}

/// The message for an error.
pub open spec fn schedule_message(e: ScheduleErrorView) -> Seq<char> {
    match e {
        ScheduleErrorView::UnknownKey(k) => "unknown variant `"@ + k
            + "`, expected `cron` or `natural`"@,
        ScheduleErrorView::InvalidCron(s, m) => "invalid cron `"@ + s + "`: "@ + m,
        ScheduleErrorView::InvalidNatural(s, m) => "invalid natural-language schedule `"@ + s
            + "`: "@ + m,
    }
}

impl ScheduleError {
    /// What went wrong, in words.
    pub fn message(&self) -> (r: String)
        ensures
            r@ == schedule_message(self@),
    {
        match self {
            ScheduleError::UnknownKey(k) => joined(
                joined("unknown variant `".to_owned(), k.as_str()),
                "`, expected `cron` or `natural`",
            ),
            ScheduleError::InvalidCron(s, m) => joined(
                joined(joined("invalid cron `".to_owned(), s.as_str()), "`: "),
                m.as_str(),
            ),
            ScheduleError::InvalidNatural(s, m) => joined(
                joined(
                    joined("invalid natural-language schedule `".to_owned(), s.as_str()),
                    "`: ",
                ),
                m.as_str(),
            ),
        }
    }
}

/// The schedule written as `key = "text"`, or why there is none.
pub open spec fn schedule_text(key: Seq<char>, text: Seq<char>) -> Result<
    RotateView,
    ScheduleErrorView,
> {
    if key == "cron"@ {
        match cron_complaint(text) {
            None => Ok(RotateView::Cron(text)),
            Some(m) => Err(ScheduleErrorView::InvalidCron(text, m)),
        }
    } else if key == "natural"@ {
        match lingo_complaint(text) {
            None => Ok(RotateView::Natural(text)),
            Some(m) => Err(ScheduleErrorView::InvalidNatural(text, m)),
        }
    } else {
        Err(ScheduleErrorView::UnknownKey(key))
    }
}

/// The moment that a pair of seconds and nanoseconds stands for, if it is one.
pub open spec fn moment_of(pair: Option<(i64, u32)>) -> Option<int> {
    match pair {
        Some((secs, nanos)) => if MIN_SECS <= secs <= MAX_SECS && nanos < NANOS_PER_SEC {
            Some(secs * NANOS_PER_SEC + nanos)
        } else {
            None
        },
        None => None,
    }
}

/// The first of the two listed triggers that lies strictly after `after`. In the
/// hour that a clock change repeats, the first one listed can lie before it.
pub open spec fn first_after(after: int, first: Option<int>, second: Option<int>) -> Option<int> {
    match first {
        Some(t) => if t > after {
            Some(t)
        } else {
            match second {
                Some(u) => if u > after {
                    Some(u)
                } else {
                    None
                },
                None => None,
            }
        },
        None => None,
    }
}

/// The next trigger of a cron expression.
pub open spec fn cron_next(source: Seq<char>, timezone: Seq<char>, after: UtcTime) -> Option<int> {
    first_after(
        after@,
        moment_of(cron_listing(source, timezone, after.whole_secs(), after.fraction(), 0)),
        moment_of(cron_listing(source, timezone, after.whole_secs(), after.fraction(), 1)),
    )
}

/// Whether a moment is a whole minute of local time that is `offset` seconds ahead
/// of UTC.
pub open spec fn whole_minute(at: int, offset: i32) -> bool {
    (at + offset * NANOS_PER_SEC) % (60 * NANOS_PER_SEC) == 0
}

/// What a schedule in words can answer with, at the offset that the time zone has
/// at `after`: nothing, or a trigger of the schedule, which is a whole minute of
/// local time.
pub open spec fn natural_next(
    source: Seq<char>,
    timezone: Seq<char>,
    after: UtcTime,
    next: Option<int>,
) -> bool {
    let offset = offset_at(timezone, after.whole_secs(), after.fraction());
    &&& exists|trigger: Option<(i64, u32)>|
        #[trigger] lingo_answer(source, offset, trigger) && next == moment_of(trigger)
    &&& next matches Some(t) ==> whole_minute(t, offset)
}

/// The moment that a pair of seconds and nanoseconds stands for, if it is one.
pub fn moment_from(pair: Option<(i64, u32)>) -> (r: Option<UtcTime>)
    ensures
        moment(r) == moment_of(pair),
{
    match pair {
        Some((secs, nanos)) => UtcTime::from_timestamp(secs, nanos),
        None => None,
    }
}

/// Of two listed triggers, the first that lies strictly after `after`.
pub fn pick_after(after: UtcTime, first: Option<UtcTime>, second: Option<UtcTime>) -> (r: Option<
    UtcTime,
>)
    ensures
        moment(r) == first_after(after@, moment(first), moment(second)),
{
    match first {
        Some(t) => {
            if !after.at_or_after(&t) {
                Some(t)
            } else {
                match second {
                    Some(u) => {
                        if !after.at_or_after(&u) {
                            Some(u)
                        } else {
                            None
                        }
                    },
                    None => None,
                }
            }
        },
        None => None,
    }
}

proof fn lemma_whole_minute(secs: int, offset: i32)
    requires
        (secs + offset) % 60 == 0,
    ensures
        whole_minute(secs * NANOS_PER_SEC, offset),
{
    let minutes = (secs + offset) / 60;
    let at = secs * NANOS_PER_SEC + offset * NANOS_PER_SEC;
    assert(secs + offset == 60 * minutes);
    assert(secs * NANOS_PER_SEC + offset * NANOS_PER_SEC == minutes * (60 * NANOS_PER_SEC))
        by (nonlinear_arith)
        requires
            secs + offset == 60 * minutes,
    ;
    vstd::arithmetic::div_mod::lemma_fundamental_div_mod_converse(
        at,
        (60 * NANOS_PER_SEC) as int,
        minutes,
        0,
    );
}

impl Rotate {
    /// Reads the schedule written as `key = "text"`.
    pub fn parse(key: &str, text: &str) -> (r: Result<Rotate, ScheduleError>)
        ensures
            match r {
                Ok(s) => schedule_text(key@, text@) == Ok::<RotateView, ScheduleErrorView>(s@),
                Err(e) => schedule_text(key@, text@) == Err::<RotateView, ScheduleErrorView>(e@),
            },
    {
        let k = chars_of(key);
        if spells(k.as_slice(), "cron") {
            match cron_rejects(text) {
                None => Ok(Rotate::Cron(CronExpr { source: text.to_owned() })),
                Some(m) => Err(ScheduleError::InvalidCron(text.to_owned(), m)),
            }
        } else if spells(k.as_slice(), "natural") {
            match lingo_rejects(text) {
                None => Ok(Rotate::Natural(NaturalExpr { source: text.to_owned() })),
                Some(m) => Err(ScheduleError::InvalidNatural(text.to_owned(), m)),
            }
        } else {
            Err(ScheduleError::UnknownKey(key.to_owned()))
        }
    }

    /// Next scheduled trigger strictly after `after`.
    ///
    /// A cron expression is evaluated from any moment, in the time zone. A
    /// schedule in words is only ever evaluated from the system clock's present,
    /// at the offset that the time zone has at `after`.
    pub fn next_after(&self, after: UtcTime, tz: &Timezone) -> (r: Option<UtcTime>)
        ensures
            match self@ {
                RotateView::Cron(source) => moment(r) == cron_next(source, tz@, after),
                RotateView::Natural(source) => natural_next(source, tz@, after, moment(r)),
            },
    {
        proof {
            use_type_invariant(tz);
        }
        let secs: i64 = after.timestamp();
        let nanos: u32 = after.subsec_nanos();
        match self {
            Rotate::Cron(e) => {
                proof {
                    use_type_invariant(e);
                }
                let source: &str = e.source.as_str();
                let first = cron_trigger(source, tz.name.as_str(), secs, nanos, 0);
                let second = cron_trigger(source, tz.name.as_str(), secs, nanos, 1);
                pick_after(after, moment_from(first), moment_from(second))
            },
            Rotate::Natural(e) => {
                proof {
                    use_type_invariant(e);
                }
                let offset: i32 = local_offset(tz.name.as_str(), secs, nanos);
                let trigger = lingo_trigger(e.source.as_str(), offset);
                proof {
                    if let Some((at, _)) = trigger {
                        lemma_whole_minute(at as int, offset);
                    }
                }
                moment_from(trigger)
            },
        }
    }
}

/// A cron trigger lies strictly after the moment it is asked from.
pub proof fn law_cron_trigger_is_later(source: Seq<char>, timezone: Seq<char>, after: UtcTime)
    ensures
        cron_next(source, timezone, after) matches Some(t) ==> t > after@,
{
}

/// A cron schedule answers with the first trigger that is listed from the moment on,
/// as long as that lies after it; where a clock change has the first one lie before,
/// with the second; and with none where both fail.
pub proof fn law_first_listed_trigger_counts(
    source: Seq<char>,
    timezone: Seq<char>,
    after: UtcTime,
    index: nat,
    secs: i64,
    nanos: u32,
)
    requires
        cron_listing(source, timezone, after.whole_secs(), after.fraction(), index) == Some(
            (secs, nanos),
        ),
        MIN_SECS <= secs <= MAX_SECS,
        nanos < NANOS_PER_SEC,
        secs * 1_000_000_000 + nanos > after@,
    ensures
        index == 0 ==> cron_next(source, timezone, after) == Some(
            secs * 1_000_000_000 + nanos as int,
        ),
        index == 1 && (moment_of(
            cron_listing(source, timezone, after.whole_secs(), after.fraction(), 0),
        ) matches Some(t) && t <= after@) ==> cron_next(source, timezone, after) == Some(
            secs * 1_000_000_000 + nanos as int,
        ),
{
}

/// A cron schedule without a listed trigger answers with none.
pub proof fn law_no_listed_trigger_no_answer(
    source: Seq<char>,
    timezone: Seq<char>,
    after: UtcTime,
)
    ensures
        cron_listing(source, timezone, after.whole_secs(), after.fraction(), 0) is None
            ==> cron_next(source, timezone, after) is None,
        cron_next(source, timezone, after) matches Some(t) ==> t > after@,
{
}

/// A schedule in words answers with nothing but what its own text gives at the
/// offset that the time zone has at the moment.
pub proof fn law_words_answer_for_their_own_text(
    source: Seq<char>,
    timezone: Seq<char>,
    after: UtcTime,
    next: Option<int>,
)
    requires
        natural_next(source, timezone, after, next),
    ensures
        exists|trigger: Option<(i64, u32)>|
            #[trigger] lingo_answer(
                source,
                offset_at(timezone, after.whole_secs(), after.fraction()),
                trigger,
            ) && match trigger {
                None => next is None,
                Some((secs, nanos)) => if MIN_SECS <= secs <= MAX_SECS && nanos < 1_000_000_000 {
                    next == Some(secs * 1_000_000_000 + nanos as int)
                } else {
                    next is None
                },
            },
{
    let offset = offset_at(timezone, after.whole_secs(), after.fraction());
    let trigger = choose|trigger: Option<(i64, u32)>|
        #[trigger] lingo_answer(source, offset, trigger) && next == moment_of(trigger);
    assert(lingo_answer(source, offset, trigger));
}

/// A schedule is read under its own key: cron syntax under `cron`, words under
/// `natural`, exactly where the crate for it has nothing against the text.
pub proof fn law_key_chooses_the_notation(key: Seq<char>, text: Seq<char>)
    ensures
        cron_complaint(text) is None ==> schedule_text("cron"@, text)
            == Ok::<RotateView, ScheduleErrorView>(RotateView::Cron(text)),
        lingo_complaint(text) is None ==> schedule_text("natural"@, text)
            == Ok::<RotateView, ScheduleErrorView>(RotateView::Natural(text)),
        cron_complaint(text) matches Some(m) ==> schedule_text("cron"@, text)
            == Err::<RotateView, ScheduleErrorView>(ScheduleErrorView::InvalidCron(text, m)),
        lingo_complaint(text) matches Some(m) ==> schedule_text("natural"@, text)
            == Err::<RotateView, ScheduleErrorView>(ScheduleErrorView::InvalidNatural(text, m)),
        key != "cron"@ && key != "natural"@ ==> schedule_text(key, text) == Err::<
            RotateView,
            ScheduleErrorView,
        >(ScheduleErrorView::UnknownKey(key)),
{
    reveal_strlit("cron");
    reveal_strlit("natural");
    assert("cron"@.len() != "natural"@.len());
}

/// The date of a moment is the calendar's for its whole seconds and nanoseconds in
/// the time zone.
pub proof fn law_date_is_the_calendars(timezone: Seq<char>, secs: i64, nanos: u32)
    requires
        nanos < 1_000_000_000,
    ensures
        ({
            let date = date_of(timezone, secs * 1_000_000_000 + nanos);
            let at = date_at(timezone, secs, nanos);
            date.year == at.0 && date.month == at.1 && date.day == at.2 && date.weekday == at.3
        }),
{
    vstd::arithmetic::div_mod::lemma_fundamental_div_mod_converse(
        secs * NANOS_PER_SEC + nanos,
        NANOS_PER_SEC as int,
        secs as int,
        nanos as int,
    );
}

/// The message for a schedule that is not accepted names the text and what is wrong
/// with it, or the key.
pub proof fn law_schedule_messages(text: Seq<char>, m: Seq<char>)
    ensures
        schedule_message(ScheduleErrorView::InvalidCron(text, m)) == "invalid cron `"@ + text
            + "`: "@ + m,
        schedule_message(ScheduleErrorView::InvalidNatural(text, m))
            == "invalid natural-language schedule `"@ + text + "`: "@ + m,
        schedule_message(ScheduleErrorView::UnknownKey(text)) == "unknown variant `"@ + text
            + "`, expected `cron` or `natural`"@,
{
}

} // verus!
