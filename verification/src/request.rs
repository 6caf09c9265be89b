//! What a device asks for and what it is answered with besides the image.

use crate::clock::{
    addable_span, error_refresh_target, latest, law_waiting_reaches_target, moment, retry_moment,
    seconds_to, seconds_until, wake_target, Duration, UtcTime, NANOS_PER_SEC,
};
use crate::config::ScreenConfig;
use crate::text::{chars_of, decimal, decimal_of, joined, same_chars, spells};
use vstd::prelude::*;

verus! {

// ----- Actions -----------------------------------------------------------------------------------

/// What a request does besides showing a photo.
#[derive(Debug, Clone, Copy, PartialEq, Eq, Structural)]
pub enum Action {
    Next,
    Previous,
    Refresh,
}

/// The name of an action in a request.
pub open spec fn action_text(action: Action) -> Seq<char> {
    match action {
        Action::Next => "next"@,
        Action::Previous => "previous"@,
        Action::Refresh => "refresh"@,
    }
}

/// The action of that name.
pub fn parse_action(text: &str) -> (r: Option<Action>)
    ensures
        match r {
            Some(a) => text@ == action_text(a),
            None => forall|a: Action| text@ != #[trigger] action_text(a),
        },
{
    let chars = chars_of(text);
    let c = chars.as_slice();
    if spells(c, "next") {
        Some(Action::Next)
    } else if spells(c, "previous") {
        Some(Action::Previous)
    } else if spells(c, "refresh") {
        Some(Action::Refresh)
    } else {
        None
    }
}

/// How far an action moves the cursor.
pub open spec fn step_of(action: Option<Action>) -> i64 {
    match action {
        Some(Action::Next) => 1,
        Some(Action::Previous) => (-1) as i64,
        _ => 0,
    }
}

/// How far an action moves the cursor.
pub fn cursor_step(action: Option<Action>) -> (r: i64)
    ensures
        r == step_of(action),
{
    match action {
        Some(Action::Next) => 1,
        Some(Action::Previous) => -1,
        Some(Action::Refresh) | None => 0,
    }
}

/// Whether an action asks for the album to be read anew.
pub fn asks_fresh(action: Option<Action>) -> (r: bool)
    ensures
        r == (action == Some(Action::Refresh)),
{
    match action {
        Some(Action::Refresh) => true,
        _ => false,
    }
}

// ----- Errors --------------------------------------------------------------------------------------

/// Why a request has no image.
#[derive(Debug)]
pub enum AppError {
    NotFound(String),
    Internal(String),
}

impl AppError {
    /// The HTTP status.
    pub fn status(&self) -> (r: u16)
        ensures
            r == match self {
                AppError::NotFound(_) => 404u16,
                AppError::Internal(_) => 500u16,
            },
    {
        match self {
            AppError::NotFound(_) => 404,
            AppError::Internal(_) => 500,
        }
    }

    /// What the response says.
    pub fn body(&self) -> (r: &str)
        ensures
            r@ == match self {
                AppError::NotFound(m) => m@,
                AppError::Internal(m) => m@,
            },
    {
        match self {
            AppError::NotFound(m) => m.as_str(),
            AppError::Internal(m) => m.as_str(),
        }
    }
}

/// The index of the last screen of that name.
pub open spec fn screen_named(screens: Seq<ScreenConfig>, name: Seq<char>) -> Option<int>
    decreases screens.len(),
{
    if screens.len() == 0 {
        None
    } else if screens.last().name@ == name {
        Some(screens.len() - 1)
    } else {
        screen_named(screens.drop_last(), name)
    }
}

/// Finds a screen by its name; where several have it, the last counts.
pub fn find_screen(screens: &[ScreenConfig], name: &str) -> (r: Result<usize, AppError>)
    ensures
        match r {
            Ok(i) => i < screens@.len() && screen_named(screens@, name@) == Some(i as int),
            Err(AppError::NotFound(m)) => screen_named(screens@, name@) is None && m@
                == "screen `"@ + name@ + "` not found"@,
            Err(AppError::Internal(_)) => false,
        },
{
    let wanted = chars_of(name);
    let mut n: usize = screens.len();
    assert(screens@.take(n as int) == screens@);
    while n > 0
        invariant
            wanted@ == name@,
            n <= screens@.len(),
            screen_named(screens@, name@) == screen_named(screens@.take(n as int), name@),
        decreases n,
    {
        assert(screens@.take(n as int).drop_last() == screens@.take(n - 1));
        let have = chars_of(screens[n - 1].name.as_str());
        if same_chars(have.as_slice(), wanted.as_slice()) {
            return Ok(n - 1);
        }
        n = n - 1;
    }
    Err(AppError::NotFound(joined(joined("screen `".to_owned(), name), "` not found")))
}

// ----- When to come back ---------------------------------------------------------------------------

/// When a device is asked to come back: some time past the next rotation, or
/// earlier to retry where the image is missing or lacks something. `None` where
/// it is not asked to.
pub open spec fn refresh_moment(
    retry: bool,
    error_refresh: int,
    wake_delay: int,
    next_rotation: Option<int>,
    now: int,
) -> Option<int> {
    if retry {
        Some(retry_moment(error_refresh, wake_delay, next_rotation, now))
    } else {
        match next_rotation {
            Some(n) => Some(n + addable_span(wake_delay)),
            None => None,
        }
    }
}

/// When a device is asked to come back, where `retry` says that the image is
/// missing or lacks something.
pub fn refresh_target(
    retry: bool,
    error_refresh: Duration,
    wake_delay: Duration,
    next_rotation: Option<UtcTime>,
    now: UtcTime,
) -> (r: Option<UtcTime>)
    requires
        retry ==> now@ + addable_span(error_refresh@) <= latest(),
        next_rotation matches Some(n) ==> n@ + addable_span(wake_delay@) <= latest(),
    ensures
        moment(r) == refresh_moment(
            retry,
            error_refresh@,
            wake_delay@,
            moment(next_rotation),
            now@,
        ),
{
    if retry {
        Some(error_refresh_target(error_refresh, wake_delay, next_rotation, now))
    } else {
        match next_rotation {
            Some(n) => wake_target(n, wake_delay),
            None => None,
        }
    }
}

/// The value of the `Refresh` header: the seconds to wait, and where to come back
/// to. The path has no query parameters, so that a next or previous action does
/// not repeat on auto-refresh.
pub fn refresh_header(target: UtcTime, now: UtcTime, path: &str) -> (r: String)
    ensures
        r@ == decimal(seconds_to(target@, now@) as nat) + "; url="@ + path@,
{
    let seconds: i64 = seconds_until(target, now);
    proof {
        law_waiting_reaches_target(target@, now@);
    }
    joined(joined(decimal_of(seconds as u64), "; url="), path)
}

// ----- Laws --------------------------------------------------------------------------------------------

/// A device that comes back when it is asked to never skips a rotation by a
/// retry: the retry is no later than the normal next fetch.
pub proof fn law_retry_no_later_than_next_fetch(
    error_refresh: int,
    wake_delay: int,
    next_rotation: Option<int>,
    now: int,
)
    requires
        next_rotation is Some,
    ensures
        refresh_moment(true, error_refresh, wake_delay, next_rotation, now)->0 <= refresh_moment(
            false,
            error_refresh,
            wake_delay,
            next_rotation,
            now,
        )->0,
{
}

/// A device whose clock has it wake early by no more than the wake delay still
/// wakes at or after the next rotation.
pub proof fn law_early_wake_is_after_rotation(
    error_refresh: int,
    wake_delay: int,
    next_rotation: int,
    now: int,
    early: int,
)
    requires
        0 <= early <= addable_span(wake_delay),
    ensures
        ({
            let target = refresh_moment(false, error_refresh, wake_delay, Some(next_rotation), now)->0;
            now + seconds_to(target, now) * NANOS_PER_SEC - early >= next_rotation
        }),
{
    let target = refresh_moment(false, error_refresh, wake_delay, Some(next_rotation), now)->0;
    law_waiting_reaches_target(target, now);
}

/// Without a wake delay a device is told to wake exactly at the rotation.
pub proof fn law_no_delay_wakes_at_rotation(
    error_refresh: int,
    next_rotation: Option<int>,
    now: int,
)
    ensures
        refresh_moment(false, error_refresh, 0, next_rotation, now) == next_rotation,
{
}

/// A normal reply asks the device back exactly the wake delay past the next rotation,
/// and not at all without a schedule; a reply that lacks something asks it back
/// after the retry pause, or at the normal time where that is earlier.
pub proof fn law_when_a_device_comes_back(
    error_refresh: int,
    wake_delay: int,
    next_rotation: Option<int>,
    now: int,
)
    requires
        0 <= error_refresh <= 9_223_372_036_854_775_807_000_000,
        0 <= wake_delay <= 9_223_372_036_854_775_807_000_000,
    ensures
        refresh_moment(false, error_refresh, wake_delay, next_rotation, now) == match next_rotation {
            Some(n) => Some(n + wake_delay),
            None => None,
        },
        ({
            let retry = refresh_moment(true, error_refresh, wake_delay, next_rotation, now);
            &&& retry is Some
            &&& next_rotation is None ==> retry == Some(now + error_refresh)
            &&& next_rotation matches Some(n) ==> retry == Some(
                if now + error_refresh <= n + wake_delay {
                    now + error_refresh
                } else {
                    n + wake_delay
                },
            )
        }),
{
}

/// Next goes one on, previous one back, a refresh and a plain request nowhere.
pub proof fn law_actions_move_the_cursor()
    ensures
        step_of(Some(Action::Next)) == 1,
        step_of(Some(Action::Previous)) == -1,
        step_of(Some(Action::Next)) + step_of(Some(Action::Previous)) == 0,
        step_of(Some(Action::Refresh)) == 0,
        step_of(None) == 0,
        action_text(Action::Next) == "next"@,
        action_text(Action::Previous) == "previous"@,
        action_text(Action::Refresh) == "refresh"@,
{
}

/// A screen that is found has the name asked for, and no later one has it; none is
/// found exactly where no screen has the name.
pub proof fn law_screens_are_found_by_name(screens: Seq<ScreenConfig>, name: Seq<char>)
    ensures
        match screen_named(screens, name) {
            Some(i) => 0 <= i < screens.len() && screens[i].name@ == name && forall|j: int|
                i < j < screens.len() ==> (#[trigger] screens[j]).name@ != name,
            None => forall|j: int|
                0 <= j < screens.len() ==> (#[trigger] screens[j]).name@ != name,
        },
    decreases screens.len(),
{
    if screens.len() > 0 && screens.last().name@ != name {
        let shorter = screens.drop_last();
        law_screens_are_found_by_name(shorter, name);
        assert forall|j: int| 0 <= j < shorter.len() implies shorter[j] == #[trigger] screens[j] by {}
    }
}

} // verus!
