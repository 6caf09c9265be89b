//! Per-screen rotation state: which photo of the shuffled album is shown, and
//! when the album is shuffled anew.

use crate::album::{law_new_indices_are_the_unseen, new_indices};
use crate::clock::{moment, UtcTime};
use crate::config::ScreenConfig;
use crate::schedule::{cron_next, natural_next, Rotate, RotateView, Timezone};
use rand::rngs::StdRng;
use rand::seq::SliceRandom;
use rand::{Rng, SeedableRng};
use vstd::prelude::*;
use vstd::wrapping::i64_specs::wrapping_add;

verus! {

// ----- What the outside crate computes -------------------------------------------------------

/// Whether `rand` can draw that seed.
pub uninterp spec fn drawn(seed: u64) -> bool;

/// `rand::rng` with `Rng::random`: any seed may come out, so nothing is said of it
/// but that it was drawn.
#[verifier::external_body]
fn random_seed() -> (r: u64)
    ensures
        drawn(r),
{
    rand::rng().random()
}

/// The order in which `rand` leaves items that it shuffles from a seed.
pub uninterp spec fn shuffled(items: Seq<usize>, seed: u64) -> Seq<usize>;

/// `rand::seq::SliceRandom::shuffle` with a `StdRng` made by `seed_from_u64`: the
/// new order is given by the items and the seed alone, and the items stay the
/// same.
#[verifier::external_body]
fn shuffle(items: &mut Vec<usize>, seed: u64)
    ensures
        final(items)@ == shuffled(old(items)@, seed),
        final(items)@.to_multiset() == old(items)@.to_multiset(),
{
    items.shuffle(&mut StdRng::seed_from_u64(seed));
}

// ----- The shuffled album ----------------------------------------------------------------------

/// The indices of an album of `n` photos, in album order.
pub open spec fn album_order(n: nat) -> Seq<usize> {
    Seq::new(n, |i: int| i as usize)
}

/// The indices of an album of `n` photos, in the order that a seed gives them.
pub open spec fn shuffled_order(seed: u64, n: nat) -> Seq<usize> {
    shuffled(album_order(n), seed)
}

/// Each index below `n` stands in `order` exactly once.
pub open spec fn permutation(order: Seq<usize>, n: nat) -> bool {
    &&& order.len() == n
    &&& order.no_duplicates()
    &&& forall|i: int| 0 <= i < n ==> #[trigger] order[i] < n
    &&& forall|p: usize| p < n ==> #[trigger] order.contains(p)
}

/// The index that a cursor stands for in an order, going round in both directions.
pub open spec fn index_at(order: Seq<usize>, cursor: int) -> usize {
    order[cursor % (order.len() as int)]
}

proof fn lemma_reordering_is_permutation(order: Seq<usize>, n: nat)
    requires
        n <= usize::MAX,
        order.to_multiset() == album_order(n).to_multiset(),
    ensures
        permutation(order, n),
{
    let plain = album_order(n);
    plain.to_multiset_ensures();
    order.to_multiset_ensures();
    plain.lemma_multiset_has_no_duplicates();
    order.lemma_multiset_has_no_duplicates_conv();
    assert forall|i: int| 0 <= i < n implies #[trigger] order[i] < n by {
        assert(order.contains(order[i]));
        assert(plain.to_multiset().count(order[i]) > 0);
        assert(plain.contains(order[i]));
    }
    assert forall|p: usize| p < n implies #[trigger] order.contains(p) by {
        assert(plain[p as int] == p);
        assert(plain.contains(p));
        assert(plain.to_multiset().count(p) > 0);
    }
}

/// Fisher-Yates permutation of `[0..n)` seeded by `seed`.
pub fn shuffled_album(seed: u64, n: usize) -> (r: Vec<usize>)
    ensures
        r@ == shuffled_order(seed, n as nat),
        permutation(r@, n as nat),
{
    let mut order: Vec<usize> = Vec::new();
    let mut i: usize = 0;
    while i < n
        invariant
            i <= n,
            order@ == album_order(i as nat),
        decreases n - i,
    {
        order.push(i);
        i = i + 1;
    }
    shuffle(&mut order, seed);
    proof {
        lemma_reordering_is_permutation(order@, n as nat);
    }
    order
}

/// The index that `cursor` stands for in `order`.
pub fn index_in(order: &[usize], cursor: i64) -> (r: usize)
    requires
        0 < order@.len() <= i64::MAX,
    ensures
        r == index_at(order@, cursor as int),
{
    let n: i64 = order.len() as i64;
    let position: i64 = cursor.checked_rem_euclid(n).unwrap();
    order[position as usize]
}

/// Fisher-Yates permutation of `[0..n)` seeded by `seed`, indexed by `cursor`
/// modulo `n`.
pub fn resolve_index(seed: u64, cursor: i64, n: usize) -> (r: usize)
    requires
        0 < n <= i64::MAX,
    ensures
        r == index_at(shuffled_order(seed, n as nat), cursor as int),
        permutation(shuffled_order(seed, n as nat), n as nat),
        r < n,
{
    let order = shuffled_album(seed, n);
    index_in(order.as_slice(), cursor)
}

// ----- State and its transitions ---------------------------------------------------------------

/// Per-screen rotation state. Owns the rotation schedule and time zone so callers
/// don't have to thread them through every operation: the seed driving the
/// current shuffle, the navigation cursor, the moment at which rotation last
/// fired, the trigger that comes next after it, and the schedule and time zone
/// that give the trigger. Where rotation never fired yet the seed is a
/// placeholder.
///
/// The trigger is taken once, at the rotation: a schedule in words is evaluated
/// from the system clock's present, so asked later it would pass over every
/// trigger that came meanwhile. Only where such a schedule gave none is it asked
/// again.
#[derive(Debug)]
pub struct ScreenState {
    seed: u64,
    cursor: i64,
    last_rotation: Option<UtcTime>,
    upcoming: Option<UtcTime>,
    rotate: Option<Rotate>,
    tz: Timezone,
}

/// A `ScreenState` as values.
pub ghost struct ScreenView {
    pub seed: u64,
    pub cursor: i64,
    pub last_rotation: Option<UtcTime>,
    pub upcoming: Option<UtcTime>,
    pub rotate: Option<RotateView>,
    pub timezone: Seq<char>,
}

/// A schedule by what was written.
pub open spec fn schedule_view(rotate: Option<Rotate>) -> Option<RotateView> {
    match rotate {
        Some(r) => Some(r@),
        None => None,
    }
}

impl View for ScreenState {
    type V = ScreenView;

    closed spec fn view(&self) -> ScreenView {
        ScreenView {
            seed: self.seed,
            cursor: self.cursor,
            last_rotation: self.last_rotation,
            upcoming: self.upcoming,
            rotate: schedule_view(self.rotate),
            timezone: self.tz@,
        }
    }
}

impl ScreenView {
    /// After a rotation at `now` that drew `seed`, where the next trigger is
    /// `next`.
    pub open spec fn reseeded(self, seed: u64, now: UtcTime, next: Option<UtcTime>) -> ScreenView {
        ScreenView { seed, cursor: 0, last_rotation: Some(now), upcoming: next, ..self }
    }

    /// With the cursor moved by `delta`.
    pub open spec fn moved(self, delta: i64) -> ScreenView {
        ScreenView { cursor: wrapping_add(self.cursor, delta), ..self }
    }

    /// Whether `next` can be the first scheduled rotation after `since`. Without a
    /// schedule there is none; a cron schedule has one answer; what a schedule in
    /// words answers depends on the system clock.
    pub open spec fn may_come_next(self, since: UtcTime, next: Option<int>) -> bool {
        match self.rotate {
            None => next is None,
            Some(RotateView::Cron(source)) => next == cron_next(source, self.timezone, since),
            Some(RotateView::Natural(source)) => natural_next(source, self.timezone, since, next),
        }
    }

    /// The trigger kept is one that the schedule gave at the last rotation.
    pub open spec fn wf(self) -> bool {
        match self.last_rotation {
            None => self.upcoming is None,
            Some(since) => self.may_come_next(since, moment(self.upcoming)),
        }
    }

    /// Whether a schedule in words gave no trigger at the last rotation.
    pub open spec fn lacks_trigger(self) -> bool {
        self.last_rotation is Some && self.upcoming is None && self.rotate matches Some(
            RotateView::Natural(_),
        )
    }

    /// Whether `asked` can follow from asking a schedule that gave no trigger again.
    pub open spec fn may_ask_to(self, asked: ScreenView) -> bool {
        if self.lacks_trigger() {
            &&& asked == ScreenView { upcoming: asked.upcoming, ..self }
            &&& self.may_come_next(self.last_rotation->0, moment(asked.upcoming))
        } else {
            asked == self
        }
    }

    /// Whether a rotation is due at `now`: always where none fired yet, else once
    /// the trigger after the last rotation has come.
    pub open spec fn due(self, now: UtcTime) -> bool {
        self.last_rotation is None || (moment(self.upcoming) matches Some(t) && now@ >= t)
    }

    /// Whether `after` can follow where a rotation takes place at `now` if it is due.
    pub open spec fn may_turn_to(self, now: UtcTime, after: ScreenView) -> bool {
        if self.due(now) {
            &&& after == self.reseeded(after.seed, now, after.upcoming)
            &&& drawn(after.seed)
            &&& self.may_come_next(now, moment(after.upcoming))
        } else {
            after == self
        }
    }

    /// Whether `after` can follow from asking for rotation at `now`, where `fired`
    /// says that one took place.
    pub open spec fn may_rotate_to(self, now: UtcTime, fired: bool, after: ScreenView) -> bool {
        exists|asked: ScreenView|
            {
                &&& #[trigger] self.may_ask_to(asked)
                &&& fired == asked.due(now)
                &&& asked.may_turn_to(now, after)
            }
    }

    /// Whether no trigger that the schedule has given, or can give where it gave
    /// none, has come by `now`.
    pub open spec fn quiet_at(self, now: UtcTime) -> bool {
        forall|asked: ScreenView| #[trigger] self.may_ask_to(asked) ==> !asked.due(now)
    }
}

/// Whether the photo `offset` places on from `cursor` is among `new`.
pub open spec fn hits(order: Seq<usize>, cursor: i64, new: Seq<usize>, offset: int) -> bool {
    new.contains(index_at(order, wrapping_add(cursor, offset as i64) as int))
}

/// The first place on from `cursor` whose photo is among `new`, looking from
/// `offset` places on and once round; 0 where there is none.
pub open spec fn snap_offset(order: Seq<usize>, cursor: i64, new: Seq<usize>, offset: int) -> int
    decreases order.len() - offset,
{
    if offset >= order.len() {
        0
    } else if hits(order, cursor, new, offset) {
        offset
    } else {
        snap_offset(order, cursor, new, offset + 1)
    }
}

impl ScreenView {
    /// After navigation in an album of `n` photos: the cursor moved by `advance`,
    /// and on to the first new photo where `snap` asks for one.
    pub open spec fn navigated(self, advance: i64, snap: bool, new: Seq<usize>, n: nat) -> ScreenView {
        let there = self.moved(advance);
        if snap && new.len() > 0 {
            there.moved(
                snap_offset(shuffled_order(self.seed, n), there.cursor, new, 0) as i64,
            )
        } else {
            there
        }
    }

    /// Whether `after` can follow from picking a photo at `now` in an album of `n`:
    /// rotation first where it is due, then navigation.
    pub open spec fn may_pick_to(
        self,
        now: UtcTime,
        advance: i64,
        fresh: bool,
        new: Seq<usize>,
        n: nat,
        after: ScreenView,
    ) -> bool {
        exists|fired: bool, rotated: ScreenView|
            {
                &&& #[trigger] self.may_rotate_to(now, fired, rotated)
                &&& after == rotated.navigated(advance, fired || fresh || advance != 0, new, n)
            }
    }

    /// The index of the photo shown, in an album of `n`.
    pub open spec fn shown(self, n: nat) -> usize {
        index_at(shuffled_order(self.seed, n), self.cursor as int)
    }
}

fn holds(items: &[usize], item: usize) -> (r: bool)
    ensures
        r == items@.contains(item),
{
    let n: usize = items.len();
    let mut i: usize = 0;
    while i < n
        invariant
            n == items@.len(),
            i <= n,
            forall|k: int| 0 <= k < i ==> items@[k] != item,
        decreases n - i,
    {
        if items[i] == item {
            return true;
        }
        i = i + 1;
    }
    false
}

/// The first place on from `cursor` whose photo is among `new`; 0 where none is.
pub fn snap_to_new(order: &[usize], cursor: i64, new: &[usize]) -> (r: i64)
    requires
        0 < order@.len() <= i64::MAX,
    ensures
        r == snap_offset(order@, cursor, new@, 0),
        0 <= r < order@.len(),
{
    let n: i64 = order.len() as i64;
    let mut offset: i64 = 0;
    while offset < n
        invariant
            0 < order@.len() <= i64::MAX,
            n == order@.len(),
            0 <= offset <= n,
            snap_offset(order@, cursor, new@, 0) == snap_offset(
                order@,
                cursor,
                new@,
                offset as int,
            ),
        decreases n - offset,
    {
        if holds(new, index_in(order, cursor.wrapping_add(offset))) {
            return offset;
        }
        offset = offset + 1;
    }
    0
}

impl ScreenState {
    #[verifier::type_invariant]
    spec fn kept(self) -> bool {
        self@.wf()
    }

    /// The state before the first rotation.
    pub fn new(config: &ScreenConfig) -> (r: Self)
        ensures
            r@ == (ScreenView {
                seed: 0,
                cursor: 0,
                last_rotation: None,
                upcoming: None,
                rotate: schedule_view(config.rotate),
                timezone: config.timezone@,
            }),
            r@.wf(),
    {
        let rotate = match &config.rotate {
            Some(r) => Some(r.clone()),
            None => None,
        };
        ScreenState {
            seed: 0,
            cursor: 0,
            last_rotation: None,
            upcoming: None,
            rotate,
            tz: config.timezone.clone(),
        }
    }

    /// The seed of the current shuffle.
    pub fn seed(&self) -> (r: u64)
        ensures
            r == self@.seed,
    {
        self.seed
    }

    /// The navigation cursor.
    pub fn cursor(&self) -> (r: i64)
        ensures
            r == self@.cursor,
    {
        self.cursor
    }

    /// The moment at which rotation last fired.
    pub fn last_rotation(&self) -> (r: Option<UtcTime>)
        ensures
            r == self@.last_rotation,
    {
        self.last_rotation
    }

    /// The first scheduled rotation moment after the last rotation. None before
    /// the first rotation.
    pub fn upcoming_rotation(&self) -> (r: Option<UtcTime>)
        ensures
            r == self@.upcoming,
            self@.wf(),
    {
        proof {
            use_type_invariant(self);
        }
        self.upcoming
    }

    /// Moves the cursor, wrapping around at the limits of its type.
    pub fn advance(&mut self, delta: i64)
        ensures
            final(self)@ == old(self)@.moved(delta),
    {
        proof {
            use_type_invariant(&*self);
        }
        self.cursor = self.cursor.wrapping_add(delta);
    }

    /// The first scheduled rotation moment strictly after `since`. None when
    /// there's no schedule or the schedule has no future triggers.
    pub fn next_rotation(&self, since: UtcTime) -> (r: Option<UtcTime>)
        ensures
            self@.may_come_next(since, moment(r)),
    {
        match &self.rotate {
            Some(r) => r.next_after(since, &self.tz),
            None => None,
        }
    }

    /// Whether a rotation is due at `now`.
    pub fn rotation_due(&self, now: UtcTime) -> (r: bool)
        ensures
            r == self@.due(now),
    {
        match self.last_rotation {
            None => true,
            Some(_) => match self.upcoming {
                Some(t) => now.at_or_after(&t),
                None => false,
            },
        }
    }

    /// Starts a new shuffle from `seed`, with the cursor at its start. `next` is
    /// the first scheduled rotation after `now`.
    pub fn reseed(&mut self, seed: u64, now: UtcTime, next: Option<UtcTime>)
        requires
            old(self)@.may_come_next(now, moment(next)),
        ensures
            final(self)@ == old(self)@.reseeded(seed, now, next),
    {
        let rotate = match &self.rotate {
            Some(r) => Some(r.clone()),
            None => None,
        };
        let tz = self.tz.clone();
        *self = ScreenState {
            seed,
            cursor: 0,
            last_rotation: Some(now),
            upcoming: next,
            rotate,
            tz,
        };
    }

    /// Asks a schedule in words for its trigger again, where it gave none at the last
    /// rotation.
    pub fn ask_again(&mut self)
        ensures
            old(self)@.may_ask_to(final(self)@),
            final(self)@.wf(),
    {
        proof {
            use_type_invariant(&*self);
        }
        let words: bool = match &self.rotate {
            Some(Rotate::Natural(_)) => true,
            _ => false,
        };
        if let Some(since) = self.last_rotation {
            if words && self.upcoming.is_none() {
                let next = self.next_rotation(since);
                self.upcoming = next;
            }
        }
    }

    /// Reseed and reset the cursor if a scheduled trigger has elapsed since the
    /// last rotation, or if there was none yet. Returns true iff a rotation
    /// actually fired. The new seed is drawn at random.
    pub fn maybe_rotate(&mut self, now: UtcTime) -> (r: bool)
        ensures
            old(self)@.may_rotate_to(now, r, final(self)@),
            final(self)@.wf(),
    {
        self.ask_again();
        let ghost asked = self@;
        assert(old(self)@.may_ask_to(asked));
        if !self.rotation_due(now) {
            return false;
        }
        let next = self.next_rotation(now);
        let seed: u64 = random_seed();
        self.reseed(seed, now, next);
        proof {
            use_type_invariant(&*self);
        }
        true
    }

    /// Moves the cursor by `advance`, and where `snap` asks for it on to the first
    /// of the photos `new` to the album, once round at most. Returns the index of
    /// the photo shown.
    pub fn navigate(&mut self, advance: i64, snap: bool, new: &[usize], n: usize) -> (r: usize)
        requires
            0 < n <= i64::MAX,
        ensures
            final(self)@ == old(self)@.navigated(advance, snap, new@, n as nat),
            r == final(self)@.shown(n as nat),
            permutation(shuffled_order(old(self)@.seed, n as nat), n as nat),
            r < n,
    {
        let order = shuffled_album(self.seed, n);
        self.advance(advance);
        if snap && new.len() > 0 {
            let offset: i64 = snap_to_new(order.as_slice(), self.cursor, new);
            self.advance(offset);
        }
        index_in(order.as_slice(), self.cursor)
    }

    /// Apply rotation, navigation, and (when triggered) snap-to-new in one
    /// atomic state transition, then return the resolved photo index and the
    /// next scheduled rotation moment. `advance` shifts the cursor (1 for
    /// next, -1 for previous, 0 for none). On any non-passive event — a
    /// rotation just fired, `fresh` (refresh), or a non-zero `advance`
    /// (next/previous) — and when `new` is non-empty, the cursor is
    /// advanced further until it lands on one of the new indices, so the snap
    /// persists across subsequent requests rather than being a one-shot
    /// override. Passive polling (no rotation) leaves the cursor where it is.
    pub fn pick_index(
        &mut self,
        now: UtcTime,
        advance: i64,
        fresh: bool,
        new: &[usize],
        n: usize,
    ) -> (r: (usize, Option<UtcTime>))
        requires
            0 < n <= i64::MAX,
        ensures
            old(self)@.may_pick_to(now, advance, fresh, new@, n as nat, final(self)@),
            final(self)@.wf(),
            r.0 == final(self)@.shown(n as nat),
            permutation(shuffled_order(final(self)@.seed, n as nat), n as nat),
            r.0 < n,
            r.1 == final(self)@.upcoming,
    {
        let fired: bool = self.maybe_rotate(now);
        let ghost rotated = self@;
        let index: usize = self.navigate(advance, fired || fresh || advance != 0, new, n);
        assert(old(self)@.may_rotate_to(now, fired, rotated));
        proof {
            use_type_invariant(&*self);
        }
        (index, self.upcoming_rotation())
    }
}

// ----- Laws --------------------------------------------------------------------------------------

/// The first request always rotates, whatever the schedule.
pub proof fn law_first_request_rotates(
    v: ScreenView,
    now: UtcTime,
    fired: bool,
    after: ScreenView,
)
    requires
        v.last_rotation is None,
        v.may_rotate_to(now, fired, after),
    ensures
        fired,
        after.cursor == 0,
        after.last_rotation == Some(now),
{
}

/// Without a schedule the first shuffle stays.
pub proof fn law_no_schedule_no_rotation(
    v: ScreenView,
    now: UtcTime,
    fired: bool,
    after: ScreenView,
)
    requires
        v.wf(),
        v.last_rotation is Some,
        v.rotate is None,
        v.may_rotate_to(now, fired, after),
    ensures
        !fired,
        after == v,
{
}

/// Whatever the schedule, once it has given a trigger a rotation fires exactly when
/// that trigger has come; until then nothing changes, and from then on the next
/// trigger counts.
pub proof fn law_rotates_on_schedule(
    v: ScreenView,
    since: UtcTime,
    now: UtcTime,
    fired: bool,
    after: ScreenView,
)
    requires
        v.wf(),
        v.last_rotation == Some(since),
        v.upcoming is Some,
        v.may_rotate_to(now, fired, after),
    ensures
        v.may_come_next(since, moment(v.upcoming)),
        fired <==> (moment(v.upcoming) matches Some(t) && t <= now@),
        fired ==> after.cursor == 0 && after.last_rotation == Some(now) && drawn(after.seed)
            && after.may_come_next(now, moment(after.upcoming)),
        !fired ==> after == v,
        after.wf(),
{
}

/// A cron schedule rotates exactly when its first trigger after the last rotation
/// has come.
pub proof fn law_cron_rotates_on_schedule(
    v: ScreenView,
    source: Seq<char>,
    since: UtcTime,
    now: UtcTime,
    fired: bool,
    after: ScreenView,
)
    requires
        v.wf(),
        v.rotate == Some(RotateView::Cron(source)),
        v.last_rotation == Some(since),
        v.may_rotate_to(now, fired, after),
    ensures
        fired <==> (cron_next(source, v.timezone, since) matches Some(t) && now@ >= t),
        !fired ==> after == v,
{
}

/// A schedule in words rotates exactly when the trigger that it answered with has
/// come. Where it gave none at the last rotation it is asked again, and what it
/// answers is kept.
pub proof fn law_words_rotate_on_schedule(
    v: ScreenView,
    source: Seq<char>,
    since: UtcTime,
    now: UtcTime,
    fired: bool,
    after: ScreenView,
)
    requires
        v.wf(),
        v.rotate == Some(RotateView::Natural(source)),
        v.last_rotation == Some(since),
        v.may_rotate_to(now, fired, after),
    ensures
        natural_next(source, v.timezone, since, moment(v.upcoming)),
        v.upcoming is Some ==> (fired <==> (moment(v.upcoming) matches Some(t) && t <= now@)),
        v.upcoming is None && !fired ==> natural_next(
            source,
            v.timezone,
            since,
            moment(after.upcoming),
        ) && after == (ScreenView { upcoming: after.upcoming, ..v }),
{
}

/// A cron schedule does not fire twice at one moment.
pub proof fn law_cron_fires_once(
    v: ScreenView,
    source: Seq<char>,
    now: UtcTime,
    once: ScreenView,
    again: bool,
    twice: ScreenView,
)
    requires
        v.rotate == Some(RotateView::Cron(source)),
        v.may_rotate_to(now, true, once),
        once.may_rotate_to(now, again, twice),
    ensures
        !again,
        twice == once,
{
}

/// Every request keeps the trigger in step with the last rotation.
pub proof fn law_requests_keep_the_trigger(
    v: ScreenView,
    now: UtcTime,
    advance: i64,
    fresh: bool,
    new: Seq<usize>,
    n: nat,
    after: ScreenView,
)
    requires
        v.wf(),
        v.may_pick_to(now, advance, fresh, new, n, after),
    ensures
        after.wf(),
        after.last_rotation is Some,
        after.rotate == v.rotate,
        after.timezone == v.timezone,
{
}

/// Passive polling leaves the state, and so the photo shown, as it is.
pub proof fn law_passive_poll_changes_nothing(v: ScreenView, new: Seq<usize>, n: nat)
    ensures
        v.navigated(0, false, new, n) == v,
{
}

/// A photo that was picked stays, a snap to a new one included, over later plain
/// polls until the next trigger comes, whatever is new to the album by then.
pub proof fn law_snap_persists(
    v: ScreenView,
    now: UtcTime,
    advance: i64,
    fresh: bool,
    new: Seq<usize>,
    n: nat,
    picked: ScreenView,
    later: UtcTime,
    newer: Seq<usize>,
    after: ScreenView,
)
    requires
        v.may_pick_to(now, advance, fresh, new, n, picked),
        picked.quiet_at(later),
        picked.may_pick_to(later, 0, false, newer, n, after),
    ensures
        after == (ScreenView { upcoming: after.upcoming, ..picked }),
        after.shown(n) == picked.shown(n),
{
    assert forall|rotated: ScreenView| #[trigger] rotated.navigated(0, false, newer, n)
        == rotated by {
        law_passive_poll_changes_nothing(rotated, newer, n);
    }
}

/// A trigger that was given and has not come yet keeps a screen quiet.
pub proof fn law_quiet_before_the_trigger(v: ScreenView, now: UtcTime)
    requires
        v.last_rotation is Some,
        !v.lacks_trigger(),
        moment(v.upcoming) matches Some(t) ==> now@ < t,
    ensures
        v.quiet_at(now),
{
}

/// Going on and then back, or back and then on, with nothing new in the album
/// leads to where one was.
pub proof fn law_previous_undoes_next(v: ScreenView, snap: bool, n: nat)
    ensures
        v.navigated(1, snap, Seq::empty(), n).navigated((-1) as i64, snap, Seq::empty(), n) == v,
        v.navigated((-1) as i64, snap, Seq::empty(), n).navigated(1, snap, Seq::empty(), n) == v,
{
}

/// The cursor goes round the album in both directions.
pub proof fn law_cursor_goes_round(order: Seq<usize>, cursor: int)
    requires
        order.len() > 0,
    ensures
        index_at(order, cursor + order.len()) == index_at(order, cursor),
        index_at(order, cursor - order.len()) == index_at(order, cursor),
{
    let n = order.len() as int;
    vstd::arithmetic::div_mod::lemma_mod_add_multiples_vanish(cursor, n);
    vstd::arithmetic::div_mod::lemma_mod_sub_multiples_vanish(cursor, n);
}

/// The place in a round of `n` that starts at `cursor` at which position `at` of
/// the order is reached.
spec fn place_of(cursor: int, at: int, n: int) -> int {
    (at - cursor) % n
}

proof fn lemma_place_reaches(cursor: int, at: int, n: int)
    requires
        0 <= at < n,
    ensures
        0 <= place_of(cursor, at, n) < n,
        (cursor + place_of(cursor, at, n)) % n == at,
{
    let k = place_of(cursor, at, n);
    vstd::arithmetic::div_mod::lemma_mod_bound(at - cursor, n);
    vstd::arithmetic::div_mod::lemma_add_mod_noop_right(cursor, at - cursor, n);
    assert(cursor + (at - cursor) == at);
    vstd::arithmetic::div_mod::lemma_small_mod(at as nat, n as nat);
}

/// Whether the photo `p` is shown within one round from `cursor` on.
pub open spec fn shown_in_round(order: Seq<usize>, cursor: int, p: usize) -> bool {
    exists|i: int| cursor <= i < cursor + order.len() && #[trigger] index_at(order, i) == p
}

/// One round of the album, from wherever it starts, shows each photo exactly once.
pub proof fn law_round_shows_each_photo_once(order: Seq<usize>, n: nat, cursor: int)
    requires
        permutation(order, n),
    ensures
        forall|i: int, j: int|
            cursor <= i < j < cursor + n ==> #[trigger] index_at(order, i) != #[trigger] index_at(
                order,
                j,
            ),
        forall|p: usize| p < n ==> #[trigger] shown_in_round(order, cursor, p),
{
    assert forall|i: int, j: int| cursor <= i < j < cursor + n implies #[trigger] index_at(order, i)
        != #[trigger] index_at(order, j) by {
        let m = n as int;
        vstd::arithmetic::div_mod::lemma_mod_bound(i, m);
        vstd::arithmetic::div_mod::lemma_mod_bound(j, m);
        if i % m == j % m {
            vstd::arithmetic::div_mod::lemma_mod_equivalence(i, j, m);
            vstd::arithmetic::div_mod::lemma_fundamental_div_mod(j - i, m);
            vstd::arithmetic::div_mod::lemma_mod_equivalence(j, i, m);
            vstd::arithmetic::div_mod::lemma_small_mod((j - i) as nat, n);
            assert(false);
        }
    }
    assert forall|p: usize| p < n implies #[trigger] shown_in_round(order, cursor, p) by {
        assert(order.contains(p));
        let at = choose|at: int| 0 <= at < order.len() && order[at] == p;
        lemma_place_reaches(cursor, at, n as int);
        assert(index_at(order, cursor + place_of(cursor, at, n as int)) == p);
    }
}

proof fn lemma_snap_is_first(order: Seq<usize>, cursor: i64, new: Seq<usize>, from: int)
    requires
        0 <= from,
    ensures
        ({
            let s = snap_offset(order, cursor, new, from);
            ||| (from <= s < order.len() && hits(order, cursor, new, s) && forall|k: int|
                from <= k < s ==> !#[trigger] hits(order, cursor, new, k))
            ||| (s == 0 && forall|k: int|
                from <= k < order.len() ==> !#[trigger] hits(order, cursor, new, k))
        }),
    decreases order.len() - from,
{
    if from < order.len() && !hits(order, cursor, new, from) {
        lemma_snap_is_first(order, cursor, new, from + 1);
    }
}

/// Where some photo within one round on from the cursor is new, the snap lands on
/// the first such photo.
pub proof fn law_snap_lands_on_first_new(
    order: Seq<usize>,
    cursor: i64,
    new: Seq<usize>,
    somewhere: int,
)
    requires
        0 <= somewhere < order.len(),
        hits(order, cursor, new, somewhere),
    ensures
        hits(order, cursor, new, snap_offset(order, cursor, new, 0)),
        snap_offset(order, cursor, new, 0) <= somewhere,
{
    lemma_snap_is_first(order, cursor, new, 0);
}

/// Where the album has a new photo, a non-passive request shows a new photo, as
/// long as one round on from the cursor stays within the cursor's type.
pub proof fn law_snap_shows_a_new_photo(
    v: ScreenView,
    advance: i64,
    new: Seq<usize>,
    added: usize,
    n: nat,
)
    requires
        n <= i64::MAX,
        permutation(shuffled_order(v.seed, n), n),
        added < n,
        new.contains(added),
        wrapping_add(v.cursor, advance) + n - 1 <= i64::MAX,
    ensures
        new.contains(v.navigated(advance, true, new, n).shown(n)),
{
    let order = shuffled_order(v.seed, n);
    let cursor = wrapping_add(v.cursor, advance);
    assert(order.contains(added));
    let at = choose|at: int| 0 <= at < order.len() && order[at] == added;
    let k = place_of(cursor as int, at, n as int);
    lemma_place_reaches(cursor as int, at, n as int);
    assert(wrapping_add(cursor, k as i64) == cursor + k);
    assert(hits(order, cursor, new, k));
    law_snap_lands_on_first_new(order, cursor, new, k);
    lemma_snap_is_first(order, cursor, new, 0);
}

/// Where photos were added to the album, a non-passive request shows one that was
/// not there before, as long as one round on from the cursor stays within the
/// cursor's type.
pub proof fn law_added_photo_is_shown(
    v: ScreenView,
    advance: i64,
    previous: Seq<Seq<char>>,
    current: Seq<Seq<char>>,
)
    requires
        current.len() <= i64::MAX,
        current.len() <= usize::MAX,
        permutation(shuffled_order(v.seed, current.len()), current.len()),
        new_indices(previous, current).len() > 0,
        wrapping_add(v.cursor, advance) + current.len() - 1 <= i64::MAX,
    ensures
        ({
            let new = new_indices(previous, current);
            let shown = v.navigated(advance, true, new, current.len()).shown(current.len());
            shown < current.len() && !previous.contains(current[shown as int])
        }),
{
    let new = new_indices(previous, current);
    law_new_indices_are_the_unseen(previous, current);
    assert(new.contains(new[0]));
    law_snap_shows_a_new_photo(v, advance, new, new[0], current.len());
}

/// The photo shown is the one at the cursor's place, going round, in the order that
/// the seed shuffles the album's indices into.
pub proof fn law_cursor_picks_from_the_shuffle(v: ScreenView, n: nat)
    requires
        0 < n <= usize::MAX,
    ensures
        v.shown(n) == shuffled(Seq::new(n, |i: int| i as usize), v.seed)[v.cursor as int % shuffled(
            Seq::new(n, |i: int| i as usize),
            v.seed,
        ).len() as int],
{
    assert(album_order(n) == Seq::new(n, |i: int| i as usize));
}

/// Whether the last rotation's trigger is still to come at `now`, or there is none.
pub open spec fn before_trigger(v: ScreenView, now: UtcTime) -> bool {
    &&& v.last_rotation is Some
    &&& v.upcoming matches Some(t) ==> now@ < t@
    &&& v.upcoming is None ==> !(v.rotate matches Some(RotateView::Natural(_)))
}

/// Before the trigger, and with nothing new to the album, a request moves the cursor
/// by exactly what was asked for and changes nothing else, whether or not it asks
/// for a fresh album: a refresh of an unchanged album shows the same photo.
pub proof fn law_request_moves_by_what_was_asked(
    v: ScreenView,
    now: UtcTime,
    advance: i64,
    fresh: bool,
    n: nat,
    after: ScreenView,
)
    requires
        before_trigger(v, now),
        v.may_pick_to(now, advance, fresh, Seq::empty(), n, after),
    ensures
        after.cursor == wrapping_add(v.cursor, advance),
        i64::MIN <= v.cursor + advance <= i64::MAX ==> after.cursor == v.cursor + advance,
        advance == 0 ==> after.cursor == v.cursor && after.shown(n) == v.shown(n),
        after.seed == v.seed,
        after.last_rotation == v.last_rotation,
        after.upcoming == v.upcoming,
        after.rotate == v.rotate,
        after.timezone == v.timezone,
{
}

/// A plain poll before the trigger changes nothing, whatever is new to the album.
pub proof fn law_plain_poll_keeps_the_photo(
    v: ScreenView,
    now: UtcTime,
    new: Seq<usize>,
    n: nat,
    after: ScreenView,
)
    requires
        before_trigger(v, now),
        v.may_pick_to(now, 0, false, new, n, after),
    ensures
        after.cursor == v.cursor,
        after.seed == v.seed,
        after.last_rotation == v.last_rotation,
        after.shown(n) == v.shown(n),
{
}

/// Whether a rotation has to take place at `now`: none has yet, or its trigger has
/// come.
pub open spec fn at_trigger(v: ScreenView, now: UtcTime) -> bool {
    v.last_rotation is None || (v.upcoming matches Some(t) && t@ <= now@)
}

/// A rotation draws a seed and starts from the beginning of the new shuffle: with
/// nothing new to the album the cursor is exactly what was asked for.
pub proof fn law_rotation_starts_over(
    v: ScreenView,
    now: UtcTime,
    advance: i64,
    fresh: bool,
    n: nat,
    after: ScreenView,
)
    requires
        at_trigger(v, now),
        v.may_pick_to(now, advance, fresh, Seq::empty(), n, after),
    ensures
        after.cursor == advance,
        drawn(after.seed),
        after.last_rotation == Some(now),
        after.rotate == v.rotate,
        after.timezone == v.timezone,
        v.rotate matches Some(RotateView::Cron(source)) ==> moment(after.upcoming) == cron_next(
            source,
            v.timezone,
            now,
        ),
        v.rotate is None ==> after.upcoming is None,
{
}

/// Where a request that is no plain poll stands `from` places into the shuffle and
/// some photo within a round from there is new, it goes on by the fewest places
/// that lead to a new photo; where none is, it stays there.
pub proof fn law_snap_goes_on_to_the_nearest_new_photo(
    v: ScreenView,
    now: UtcTime,
    advance: i64,
    fresh: bool,
    new: Seq<usize>,
    n: nat,
    after: ScreenView,
    order: Seq<usize>,
    from: int,
)
    requires
        0 < n <= i64::MAX,
        new.len() > 0,
        v.may_pick_to(now, advance, fresh, new, n, after),
        order == shuffled(Seq::new(n, |i: int| i as usize), after.seed),
        permutation(order, n),
        at_trigger(v, now) || (before_trigger(v, now) && (fresh || advance != 0)),
        from == if at_trigger(v, now) {
            advance as int
        } else {
            v.cursor + advance
        },
        i64::MIN <= from,
        from + n <= i64::MAX,
    ensures
        from <= after.cursor < from + n,
        forall|k: int|
            from <= k < after.cursor ==> !#[trigger] new.contains(order[k % (n as int)]),
        new.contains(order[after.cursor as int % (n as int)]) || (after.cursor == from && forall|
            k: int,
        |
            from <= k < from + n ==> !#[trigger] new.contains(order[k % (n as int)])),
{
    let there = from as i64;
    assert(album_order(n) == Seq::new(n, |i: int| i as usize));
    assert(order == shuffled_order(after.seed, n));
    let s = snap_offset(order, there, new, 0);
    lemma_snap_is_first(order, there, new, 0);
    assert(after.cursor == wrapping_add(there, s as i64));
    assert(0 <= s < n);
    assert(after.cursor == from + s);
    assert forall|k: int| from <= k < from + n implies hits(order, there, new, k - from)
        == #[trigger] new.contains(order[k % (n as int)]) by {
        assert(wrapping_add(there, (k - from) as i64) == k);
    }
    assert forall|k: int| from <= k < after.cursor implies !#[trigger] new.contains(
        order[k % (n as int)],
    ) by {
        assert(!hits(order, there, new, k - from));
    }
    if !new.contains(order[after.cursor as int % (n as int)]) {
        assert(!hits(order, there, new, s));
        assert forall|k: int| from <= k < from + n implies !#[trigger] new.contains(
            order[k % (n as int)],
        ) by {
            assert(!hits(order, there, new, k - from));
        }
    }
}

/// In every state a request with nothing new to the album either keeps the shuffle and
/// moves the cursor by exactly what was asked for, or rotates: then a seed was drawn,
/// and the cursor is what was asked for from the start of the new shuffle.
pub proof fn law_request_moves_or_rotates(
    v: ScreenView,
    now: UtcTime,
    advance: i64,
    fresh: bool,
    n: nat,
    after: ScreenView,
)
    requires
        v.may_pick_to(now, advance, fresh, Seq::empty(), n, after),
    ensures
        after.rotate == v.rotate,
        after.timezone == v.timezone,
        ({
            ||| after.seed == v.seed && after.last_rotation == v.last_rotation && after.cursor
                == wrapping_add(v.cursor, advance) && v.last_rotation is Some
            ||| drawn(after.seed) && after.last_rotation == Some(now) && after.cursor == advance
        }),
{
}

/// Asking a schedule again changes nothing but the trigger that was missing.
pub proof fn law_asking_again_changes_the_trigger_alone(v: ScreenView, asked: ScreenView)
    requires
        v.may_ask_to(asked),
    ensures
        asked.seed == v.seed,
        asked.cursor == v.cursor,
        asked.last_rotation == v.last_rotation,
        asked.rotate == v.rotate,
        asked.timezone == v.timezone,
        v.upcoming is Some ==> asked.upcoming == v.upcoming,
        !(v.rotate matches Some(RotateView::Natural(_))) ==> asked.upcoming == v.upcoming,
        v.last_rotation is None ==> asked.upcoming == v.upcoming,
{
}

/// Without a rotation a request shows a photo of the same shuffle; every photo shown
/// is one of the album's.
pub proof fn law_photo_shown_is_in_the_album(v: ScreenView, n: nat)
    requires
        0 < n <= usize::MAX,
        permutation(shuffled(Seq::new(n, |i: int| i as usize), v.seed), n),
    ensures
        v.shown(n) < n,
{
    law_cursor_picks_from_the_shuffle(v, n);
    vstd::arithmetic::div_mod::lemma_mod_bound(v.cursor as int, n as int);
}

/// Navigation keeps the shuffle, the schedule and the rotation; where it is not to snap,
/// or nothing is new, it moves the cursor by exactly what was asked for.
pub proof fn law_navigation_moves_the_cursor_alone(
    v: ScreenView,
    advance: i64,
    snap: bool,
    new: Seq<usize>,
    n: nat,
)
    ensures
        ({
            let after = v.navigated(advance, snap, new, n);
            &&& after.seed == v.seed
            &&& after.last_rotation == v.last_rotation
            &&& after.upcoming == v.upcoming
            &&& after.rotate == v.rotate
            &&& after.timezone == v.timezone
            &&& !snap || new.len() == 0 ==> after.cursor == wrapping_add(v.cursor, advance)
        }),
{
}

/// In every state a request first rotates where that is due and then navigates: it
/// snaps exactly where it rotated, asks for a fresh album or moves the cursor.
pub proof fn law_request_rotates_and_then_navigates(
    v: ScreenView,
    now: UtcTime,
    advance: i64,
    fresh: bool,
    new: Seq<usize>,
    n: nat,
    after: ScreenView,
)
    requires
        v.may_pick_to(now, advance, fresh, new, n, after),
    ensures
        exists|fired: bool, rotated: ScreenView|
            {
                &&& #[trigger] v.may_rotate_to(now, fired, rotated)
                &&& after.seed == rotated.seed
                &&& after.last_rotation == rotated.last_rotation
                &&& after.upcoming == rotated.upcoming
                &&& !fired && !fresh && advance == 0 ==> after.cursor == rotated.cursor
                &&& fired ==> rotated.cursor == 0 && rotated.last_rotation == Some(now)
                &&& !fired ==> rotated.cursor == v.cursor && rotated.seed == v.seed
                    && rotated.last_rotation == v.last_rotation
                &&& fired || fresh || advance != 0 ==> after.cursor == rotated.navigated(
                    advance,
                    true,
                    new,
                    n,
                ).cursor
            },
{
    let (fired, rotated) = choose|fired: bool, rotated: ScreenView|
        {
            &&& #[trigger] v.may_rotate_to(now, fired, rotated)
            &&& after == rotated.navigated(advance, fired || fresh || advance != 0, new, n)
        };
    law_navigation_moves_the_cursor_alone(
        rotated,
        advance,
        fired || fresh || advance != 0,
        new,
        n,
    );
    assert(v.may_rotate_to(now, fired, rotated));
    assert(wrapping_add(rotated.cursor, 0) == rotated.cursor);
}

} // verus!
