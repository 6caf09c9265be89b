//! Spans of time as people write them, such as `1h 30m`.

use crate::alpha::ten_to;
use crate::clock::{Duration, NANOS_PER_SEC};
use crate::text::{chars_of, digit, digit_value, is_digit};
use vstd::prelude::*;

verus! {

/// What `humantime` reads in a text: seconds and nanoseconds, or its complaint.
pub uninterp spec fn span_reading(text: Seq<char>) -> Result<(u64, u32), Seq<char>>;

/// `humantime::parse_duration`, of whose error only the text is kept. Where its
/// whole seconds come to `u64::MAX` beside a full second of nanoseconds it panics,
/// so texts on which that may happen are left out. A span has less than a second of
/// nanoseconds.
#[verifier::external_body]
fn read_span(text: &str) -> (r: Result<(u64, u32), String>)
    requires
        !brimming(text@),
    ensures
        match r {
            Ok(pair) => span_reading(text@) == Ok::<(u64, u32), Seq<char>>(pair) && pair.1
                < NANOS_PER_SEC,
            Err(m) => span_reading(text@) == Err::<(u64, u32), Seq<char>>(m@),
        },
{
    match humantime::parse_duration(text) {
        Ok(d) => Ok((d.as_secs(), d.subsec_nanos())),
        Err(e) => Err(e.to_string()),
    }
}

/// A letter that a time unit is written with.
pub open spec fn unit_letter(c: char) -> bool {
    'a' <= c <= 'z' || 'A' <= c <= 'Z' || c == '\u{b5}'
}

/// The nanoseconds of the unit whose name begins with these letters: `ns`, `us`,
/// `ms`, `s`, `m`, `h`, `d`, `w`, `M`, `y`, and their longer names.
pub open spec fn unit_nanos(c: char, second: Option<char>, third: Option<char>) -> nat {
    if c == 'n' {
        1
    } else if c == 'u' || c == '\u{b5}' {
        1_000
    } else if c == 'm' && (second == Some('s') || (second == Some('i') && third == Some('l'))) {
        1_000_000
    } else if c == 'y' {
        31_557_600_000_000_000
    } else if c == 'M' || (c == 'm' && second == Some('o')) {
        2_630_016_000_000_000
    } else if c == 'w' {
        604_800_000_000_000
    } else if c == 'd' {
        86_400_000_000_000
    } else if c == 'h' {
        3_600_000_000_000
    } else if c == 'm' {
        60_000_000_000
    } else {
        1_000_000_000
    }
}

/// The character at an index, if there is one.
pub open spec fn char_at(s: Seq<char>, i: int) -> Option<char> {
    if 0 <= i < s.len() {
        Some(s[i])
    } else {
        None
    }
}

/// A number, or `u64::MAX` where it is greater.
pub open spec fn capped(x: nat) -> nat {
    if x <= u64::MAX {
        x
    } else {
        u64::MAX as nat
    }
}

/// The nanoseconds of a second more than `u64::MAX` seconds.
pub const BRIM: u128 = 18_446_744_073_709_551_616_000_000_000;

/// The greatest power of ten that has a next one in a `u64`.
pub const LONGEST_FRACTION: u64 = 1_000_000_000_000_000_000;

/// What a part of a text holds.
pub ghost struct Tally {
    /// The whole number being read, capped.
    pub number: nat,
    /// Whether its fraction has begun.
    pub dotted: bool,
    /// The fraction: a number, over a power of ten.
    pub numerator: nat,
    pub denominator: nat,
    /// No fewer nanoseconds than the spans before that number add up to.
    pub total: nat,
    /// Whether there is anything that can leave a part of a second.
    pub fine: bool,
}

impl Tally {
    /// After a digit. A fraction of more than nineteen digits is no span, so the
    /// digits beyond do not count.
    pub open spec fn with_digit(self, d: nat) -> Tally {
        if !self.dotted {
            Tally { number: capped(10 * self.number + d), ..self }
        } else if self.denominator <= LONGEST_FRACTION {
            Tally {
                numerator: 10 * self.numerator + d,
                denominator: 10 * self.denominator,
                ..self
            }
        } else {
            self
        }
    }

    /// After a unit of that many nanoseconds. A fraction counts in whole
    /// nanoseconds; one that leaves a rest is no span.
    pub open spec fn with_unit(self, nanos: nat) -> Tally {
        Tally {
            number: 0,
            dotted: false,
            numerator: 0,
            denominator: 1,
            total: self.total + self.number * nanos + self.numerator * nanos / self.denominator,
            fine: self.fine || nanos < NANOS_PER_SEC,
        }
    }
}

/// What the first `n` characters of a text hold.
pub open spec fn tally(s: Seq<char>, n: nat) -> Tally
    decreases n,
{
    if n == 0 {
        Tally {
            number: 0,
            dotted: false,
            numerator: 0,
            denominator: 1,
            total: 0,
            fine: false,
        }
    } else {
        let i = n - 1;
        let before = tally(s, i as nat);
        let c = s[i];
        if digit(c) {
            before.with_digit(digit_value(c) as nat)
        } else if c == '.' {
            Tally { dotted: true, fine: true, ..before }
        } else if unit_letter(c) && !(i > 0 && unit_letter(s[i - 1])) {
            before.with_unit(unit_nanos(c, char_at(s, i + 1), char_at(s, i + 2)))
        } else {
            before
        }
    }
}

/// Whether the spans in a text may come to a full second more than `u64::MAX`
/// seconds, by parts of a second.
pub open spec fn brimming(s: Seq<char>) -> bool {
    let t = tally(s, s.len());
    t.total >= BRIM && t.fine
}

/// Why a text is no span of time.
#[derive(Debug)]
pub enum SpanError {
    /// It may come to a full second more than `u64::MAX` seconds.
    TooLong,
    /// It is not written as one. Holds what is wrong with it.
    Invalid(String),
}

fn nanos_of_unit(c: char, second: Option<char>, third: Option<char>) -> (r: u64)
    ensures
        r == unit_nanos(c, second, third),
        1 <= r <= 31_557_600_000_000_000,
{
    if c == 'n' {
        1
    } else if c == 'u' || c == '\u{b5}' {
        1_000
    } else if c == 'm' && (second == Some('s') || (second == Some('i') && third == Some('l'))) {
        1_000_000
    } else if c == 'y' {
        31_557_600_000_000_000
    } else if c == 'M' || (c == 'm' && second == Some('o')) {
        2_630_016_000_000_000
    } else if c == 'w' {
        604_800_000_000_000
    } else if c == 'd' {
        86_400_000_000_000
    } else if c == 'h' {
        3_600_000_000_000
    } else if c == 'm' {
        60_000_000_000
    } else {
        1_000_000_000
    }
}

fn is_unit_letter(c: char) -> (r: bool)
    ensures
        r == unit_letter(c),
{
    ('a' <= c && c <= 'z') || ('A' <= c && c <= 'Z') || c == '\u{b5}'
}

fn nth_char(chars: &[char], i: usize) -> (r: Option<char>)
    ensures
        r == char_at(chars@, i as int),
{
    if i < chars.len() {
        Some(chars[i])
    } else {
        None
    }
}

fn cap(x: u128) -> (r: u64)
    ensures
        r == capped(x as nat),
{
    if x <= u64::MAX as u128 {
        x as u64
    } else {
        u64::MAX
    }
}

fn divided(numerator: u64, nanos: u64, denominator: u64) -> (r: u128)
    requires
        denominator > 0,
        nanos <= 31_557_600_000_000_000,
    ensures
        r == numerator * nanos / denominator as int,
        r <= 0xffff_ffff_ffff_ffff * 31_557_600_000_000_000,
{
    assert(0 <= numerator * nanos <= 0xffff_ffff_ffff_ffff * 31_557_600_000_000_000)
        by (nonlinear_arith)
        requires
            0 <= numerator <= 0xffff_ffff_ffff_ffff,
            0 <= nanos <= 31_557_600_000_000_000,
    ;
    let whole: u128 = numerator as u128 * nanos as u128;
    proof {
        vstd::arithmetic::div_mod::lemma_div_is_ordered_by_denominator(
            whole as int,
            1,
            denominator as int,
        );
    }
    whole / denominator as u128
}

/// Whether the spans in a text may come to a full second more than `u64::MAX`
/// seconds, by parts of a second.
fn brims(chars: &[char]) -> (r: bool)
    ensures
        r == brimming(chars@),
{
    let n: usize = chars.len();
    let mut number: u64 = 0;
    let mut dotted: bool = false;
    let mut numerator: u64 = 0;
    let mut denominator: u64 = 1;
    let mut total: u128 = 0;
    let mut over: bool = false;
    let mut fine: bool = false;
    let mut i: usize = 0;
    while i < n
        invariant
            n == chars@.len(),
            i <= n,
            total < BRIM,
            numerator < denominator,
            denominator <= 10 * LONGEST_FRACTION,
            ({
                let t = tally(chars@, i as nat);
                &&& t.number == number
                &&& t.dotted == dotted
                &&& t.numerator == numerator
                &&& t.denominator == denominator
                &&& t.fine == fine
                &&& if over {
                    t.total >= BRIM
                } else {
                    t.total == total
                }
            }),
        decreases n - i,
    {
        let c: char = chars[i];
        let ghost before = tally(chars@, i as nat);
        if is_digit(c) {
            let d: u32 = c as u32 - '0' as u32;
            if !dotted {
                number = cap(10 * number as u128 + d as u128);
            } else if denominator <= LONGEST_FRACTION {
                numerator = 10 * numerator + d as u64;
                denominator = 10 * denominator;
            }
        } else if c == '.' {
            dotted = true;
            fine = true;
        } else if is_unit_letter(c) && !(i > 0 && is_unit_letter(chars[i - 1])) {
            let second = if i + 1 < n {
                nth_char(chars, i + 1)
            } else {
                None
            };
            let third = if i + 1 < n && i + 2 < n {
                nth_char(chars, i + 2)
            } else {
                None
            };
            let nanos: u64 = nanos_of_unit(c, second, third);
            assert(0 <= number * nanos <= 0xffff_ffff_ffff_ffff * 31_557_600_000_000_000)
                by (nonlinear_arith)
                requires
                    0 <= number <= 0xffff_ffff_ffff_ffff,
                    0 <= nanos <= 31_557_600_000_000_000,
            ;
            let span: u128 = number as u128 * nanos as u128 + divided(
                numerator,
                nanos,
                denominator,
            );
            assert(tally(chars@, (i + 1) as nat) == before.with_unit(nanos as nat));
            assert(tally(chars@, (i + 1) as nat).total == before.total + span);
            if total + span < BRIM {
                total = total + span;
            } else {
                over = true;
            }
            fine = fine || (nanos as u128) < NANOS_PER_SEC as u128;
            number = 0;
            dotted = false;
            numerator = 0;
            denominator = 1;
        }
        i = i + 1;
    }
    over && fine
}

/// Reads a span of time, such as `30s`, `15m` or `1h 30m`.
pub fn parse_duration(text: &str) -> (r: Result<Duration, SpanError>)
    ensures
        match r {
            Ok(d) => !brimming(text@) && (span_reading(text@) matches Ok(pair)
                && d@ == pair.0 * NANOS_PER_SEC + pair.1),
            Err(SpanError::Invalid(m)) => !brimming(text@) && span_reading(text@)
                == Err::<(u64, u32), Seq<char>>(m@),
            Err(SpanError::TooLong) => brimming(text@),
        },
{
    let chars = chars_of(text);
    if brims(chars.as_slice()) {
        return Err(SpanError::TooLong);
    }
    match read_span(text) {
        Ok((secs, nanos)) => Ok(Duration::new(secs, nanos).unwrap()),
        Err(m) => Err(SpanError::Invalid(m)),
    }
}

// ----- Laws ------------------------------------------------------------------------------------------

proof fn lemma_tally_bound(s: Seq<char>, n: nat)
    ensures
        ({
            let t = tally(s, n);
            &&& t.numerator < t.denominator
            &&& t.total + (t.number + 1) * 31_557_600_000_000_000 <= ten_to(n)
                * 31_557_600_000_000_000
        }),
    decreases n,
{
    if n == 0 {
        assert(ten_to(0) == 1);
    } else {
        lemma_tally_bound(s, (n - 1) as nat);
        let before = tally(s, (n - 1) as nat);
        let c = s[n - 1];
        let year: int = 31_557_600_000_000_000;
        let x = ten_to((n - 1) as nat);
        assert(ten_to(n) == 10 * x);
        if !digit(c) && c != '.' && unit_letter(c) && !(n - 1 > 0 && unit_letter(s[n - 2])) {
            let nanos = unit_nanos(c, char_at(s, n as int), char_at(s, (n + 1) as int));
            assert(tally(s, n) == before.with_unit(nanos));
            assert(before.numerator * nanos / before.denominator <= nanos)
                by (nonlinear_arith)
                requires
                    before.numerator < before.denominator,
                    nanos >= 1,
            ;
            assert(before.number * nanos + nanos <= (before.number + 1) * year) by (nonlinear_arith)
                requires
                    nanos <= year,
            ;
        }
    }
}

/// Every text of up to eleven characters is left to the reader of spans, whatever it
/// says.
pub proof fn law_short_texts_are_read(s: Seq<char>)
    requires
        s.len() <= 11,
    ensures
        !brimming(s),
{
    lemma_tally_bound(s, s.len());
    lemma_ten_to_grows(s.len(), 11);
    assert(ten_to(11) == 100_000_000_000) by {
        reveal_with_fuel(ten_to, 12);
    }
}

proof fn lemma_ten_to_grows(a: nat, b: nat)
    requires
        a <= b,
    ensures
        1 <= ten_to(a) <= ten_to(b),
    decreases b,
{
    if b > 0 {
        if a < b {
            lemma_ten_to_grows(a, (b - 1) as nat);
        } else {
            lemma_ten_to_grows((a - 1) as nat, (b - 1) as nat);
        }
    }
}

/// A text is left out only where it has a point or a unit shorter than a second.
pub proof fn law_whole_seconds_are_read(s: Seq<char>)
    requires
        forall|i: int|
            0 <= i < s.len() ==> (#[trigger] s[i]) != '.' && s[i] != 'n' && s[i] != 'u' && s[i]
                != '\u{b5}' && s[i] != 'm',
    ensures
        !brimming(s),
{
    lemma_not_fine(s, s.len());
}

proof fn lemma_not_fine(s: Seq<char>, n: nat)
    requires
        n <= s.len(),
        forall|i: int|
            0 <= i < s.len() ==> (#[trigger] s[i]) != '.' && s[i] != 'n' && s[i] != 'u' && s[i]
                != '\u{b5}' && s[i] != 'm',
    ensures
        !tally(s, n).fine,
    decreases n,
{
    if n > 0 {
        lemma_not_fine(s, (n - 1) as nat);
        assert(s[n - 1] != '.');
    }
}

} // verus!
