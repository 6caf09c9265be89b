//! Colours and the notation they are written in: `#RRGGBB`, `rgb(r, g, b)` and
//! `rgba(r, g, b, alpha)`.

use crate::alpha::{alpha_text, read_alpha, Alpha};
use crate::text::{
    all_white, begins_with, chars_of, decimal, decimal_of, joined, parse_unsigned, split,
    split_at_each, string_of, strip_prefix, trim, trim_start, trimmed, trimmed_start, unsigned,
    white_space,
};
use std::str::FromStr;
use vstd::prelude::*;
use vstd::slice::slice_subrange;

verus! {

/// An sRGB colour with an alpha channel. Alpha is 255 (opaque) when parsed from
/// a form that doesn't specify it.
#[derive(Debug, Clone, Copy, PartialEq, Eq, Structural)]
pub struct Color {
    pub r: u8,
    pub g: u8,
    pub b: u8,
    pub a: u8,
}

/// Why a text is not a colour. Texts are the part at fault, trimmed.
#[derive(Debug)]
pub enum ColorError {
    /// After `#`, anything but six hexadecimal digits. Holds the whole text.
    InvalidHex(String),
    /// `rgba()` with other than four components. Holds their number.
    RgbaComponents(usize),
    /// `rgb()` with other than three components. Holds their number.
    RgbComponents(usize),
    /// A component that is no number in 0-255.
    InvalidByte(String),
    /// An alpha that is no number.
    InvalidAlpha(String),
    /// An alpha outside `[0.0, 1.0]`. Holds it as it was written.
    AlphaOutOfRange(String),
    /// None of the three notations. Holds the whole text.
    Unrecognised(String),
}

/// A `ColorError` with its texts as sequences of characters.
pub ghost enum ColorErrorView {
    InvalidHex(Seq<char>),
    RgbaComponents(nat),
    RgbComponents(nat),
    InvalidByte(Seq<char>),
    InvalidAlpha(Seq<char>),
    AlphaOutOfRange(Seq<char>),
    Unrecognised(Seq<char>),
}

impl View for ColorError {
    type V = ColorErrorView;

    open spec fn view(&self) -> ColorErrorView {
        match self {
            ColorError::InvalidHex(s) => ColorErrorView::InvalidHex(s@),
            ColorError::RgbaComponents(n) => ColorErrorView::RgbaComponents(*n as nat),
            ColorError::RgbComponents(n) => ColorErrorView::RgbComponents(*n as nat),
            ColorError::InvalidByte(s) => ColorErrorView::InvalidByte(s@),
            ColorError::InvalidAlpha(s) => ColorErrorView::InvalidAlpha(s@),
            ColorError::AlphaOutOfRange(s) => ColorErrorView::AlphaOutOfRange(s@),
            ColorError::Unrecognised(s) => ColorErrorView::Unrecognised(s@),
        }
    }
}

/// The message for an error, where `alpha` is how the number of an alpha outside
/// the range is printed.
pub open spec fn color_message(e: ColorErrorView, alpha: Seq<char>) -> Seq<char> {
    match e {
        ColorErrorView::InvalidHex(s) => "invalid hex colour `"@ + s + "`"@,
        ColorErrorView::RgbaComponents(n) => "rgba() takes 4 components, got "@ + decimal(n),
        ColorErrorView::RgbComponents(n) => "rgb() takes 3 components, got "@ + decimal(n),
        ColorErrorView::InvalidByte(s) => "invalid 0-255 byte `"@ + s + "`"@,
        ColorErrorView::InvalidAlpha(s) => "invalid alpha `"@ + s + "`"@,
        ColorErrorView::AlphaOutOfRange(_) => "alpha "@ + alpha + " out of range [0.0, 1.0]"@,
        ColorErrorView::Unrecognised(s) => "expected `#RRGGBB`, `rgb(...)`, or `rgba(...)`, got `"@
            + s + "`"@,
    }
}

fn around(head: &str, middle: &str, tail: &str) -> (r: String)
    ensures
        r@ == head@ + middle@ + tail@,
{
    let mut out = String::new();
    out.append(head);
    out.append(middle);
    out.append(tail);
    assert(out@ == head@ + middle@ + tail@);
    out
}

impl ColorError {
    /// What went wrong, in words. An alpha outside the range is a number in single
    /// precision; `alpha` is how that number is printed, and counts for no other
    /// error.
    pub fn message(&self, alpha: &str) -> (r: String)
        ensures
            r@ == color_message(self@, alpha@),
    {
        match self {
            ColorError::InvalidHex(s) => around("invalid hex colour `", s.as_str(), "`"),
            ColorError::RgbaComponents(n) => {
                let d = decimal_of(*n as u64);
                joined("rgba() takes 4 components, got ".to_owned(), d.as_str())
            },
            ColorError::RgbComponents(n) => {
                let d = decimal_of(*n as u64);
                joined("rgb() takes 3 components, got ".to_owned(), d.as_str())
            },
            ColorError::InvalidByte(s) => around("invalid 0-255 byte `", s.as_str(), "`"),
            ColorError::InvalidAlpha(s) => around("invalid alpha `", s.as_str(), "`"),
            ColorError::AlphaOutOfRange(_) => around("alpha ", alpha, " out of range [0.0, 1.0]"),
            ColorError::Unrecognised(s) => {
                around("expected `#RRGGBB`, `rgb(...)`, or `rgba(...)`, got `", s.as_str(), "`")
            },
        }
    }
}

// ----- The notation ----------------------------------------------------------------------

/// A hexadecimal digit, in either case.
pub open spec fn hex_digit(c: char) -> bool {
    ('0' <= c <= '9') || ('a' <= c <= 'f') || ('A' <= c <= 'F')
}

/// The number that a hexadecimal digit stands for.
pub open spec fn hex_value(c: char) -> int {
    if '0' <= c <= '9' {
        c as int - '0' as int
    } else if 'a' <= c <= 'f' {
        c as int - 'a' as int + 10
    } else {
        c as int - 'A' as int + 10
    }
}

/// The colour written as six hexadecimal digits.
pub open spec fn hex_color(s: Seq<char>) -> Option<Color> {
    if s.len() == 6 && (forall|i: int| 0 <= i < 6 ==> hex_digit(#[trigger] s[i])) {
        Some(
            Color {
                r: (16 * hex_value(s[0]) + hex_value(s[1])) as u8,
                g: (16 * hex_value(s[2]) + hex_value(s[3])) as u8,
                b: (16 * hex_value(s[4]) + hex_value(s[5])) as u8,
                a: 255,
            },
        )
    } else {
        None
    }
}

/// What stands between the parentheses of `name(...)`; white space may stand
/// before the opening one.
pub open spec fn call_args(s: Seq<char>, name: Seq<char>) -> Option<Seq<char>> {
    let t = trimmed_start(s.skip(name.len() as int));
    if begins_with(s, name) && t.len() >= 2 && t[0] == '(' && t.last() == ')' {
        Some(t.subrange(1, t.len() - 1))
    } else {
        None
    }
}

/// The arguments between commas, each trimmed.
pub open spec fn arguments(s: Seq<char>) -> Seq<Seq<char>> {
    split_at_each(s, ',').map_values(|p: Seq<char>| trimmed(p))
}

/// A component in 0-255.
pub open spec fn component(s: Seq<char>) -> Result<u8, ColorErrorView> {
    match unsigned(s, 255) {
        Some(n) => Ok(n as u8),
        None => Err(ColorErrorView::InvalidByte(s)),
    }
}

/// An alpha component.
pub open spec fn alpha_component(s: Seq<char>) -> Result<u8, ColorErrorView> {
    match alpha_text(s) {
        Alpha::Byte(b) => Ok(b),
        Alpha::OutOfRange => Err(ColorErrorView::AlphaOutOfRange(s)),
        Alpha::NotANumber => Err(ColorErrorView::InvalidAlpha(s)),
    }
}

/// The colour of the first three components, or the first error among them.
pub open spec fn opaque_color(parts: Seq<Seq<char>>) -> Result<Color, ColorErrorView> {
    match (component(parts[0]), component(parts[1]), component(parts[2])) {
        (Ok(r), Ok(g), Ok(b)) => Ok(Color { r, g, b, a: 255 }),
        (Err(e), _, _) => Err(e),
        (Ok(_), Err(e), _) => Err(e),
        (Ok(_), Ok(_), Err(e)) => Err(e),
    }
}

/// What a text says as a colour.
pub open spec fn color_text(text: Seq<char>) -> Result<Color, ColorErrorView> {
    let s = trimmed(text);
    if s.len() > 0 && s[0] == '#' {
        match hex_color(s.drop_first()) {
            Some(c) => Ok(c),
            None => Err(ColorErrorView::InvalidHex(s)),
        }
    } else if let Some(inner) = call_args(s, "rgba"@) {
        let parts = arguments(inner);
        if parts.len() != 4 {
            Err(ColorErrorView::RgbaComponents(parts.len()))
        } else {
            match opaque_color(parts) {
                Ok(c) => match alpha_component(parts[3]) {
                    Ok(a) => Ok(Color { a, ..c }),
                    Err(e) => Err(e),
                },
                Err(e) => Err(e),
            }
        }
    } else if let Some(inner) = call_args(s, "rgb"@) {
        let parts = arguments(inner);
        if parts.len() != 3 {
            Err(ColorErrorView::RgbComponents(parts.len()))
        } else {
            opaque_color(parts)
        }
    } else {
        Err(ColorErrorView::Unrecognised(s))
    }
}

/// The outcome `r` is the one that `expected` says.
pub open spec fn outcome_is<T>(
    r: Result<T, ColorError>,
    expected: Result<T, ColorErrorView>,
) -> bool {
    match r {
        Ok(v) => expected == Ok::<T, ColorErrorView>(v),
        Err(e) => expected == Err::<T, ColorErrorView>(e@),
    }
}

fn hex_digit_value(c: char) -> (r: Option<u8>)
    ensures
        r is Some <==> hex_digit(c),
        r matches Some(v) ==> v == hex_value(c) && v < 16,
{
    if '0' <= c && c <= '9' {
        Some((c as u32 - '0' as u32) as u8)
    } else if 'a' <= c && c <= 'f' {
        Some((c as u32 - 'a' as u32 + 10) as u8)
    } else if 'A' <= c && c <= 'F' {
        Some((c as u32 - 'A' as u32 + 10) as u8)
    } else {
        None
    }
}

/// Reads two hexadecimal digits.
fn hex_pair(high: char, low: char) -> (r: Option<u8>)
    ensures
        r is Some <==> hex_digit(high) && hex_digit(low),
        r matches Some(v) ==> v == 16 * hex_value(high) + hex_value(low),
{
    match (hex_digit_value(high), hex_digit_value(low)) {
        (Some(h), Some(l)) => Some(16 * h + l),
        _ => None,
    }
}

/// Reads six hexadecimal digits.
pub fn parse_hex(hex: &[char]) -> (r: Option<Color>)
    ensures
        r == hex_color(hex@),
{
    if hex.len() != 6 {
        return None;
    }
    match (hex_pair(hex[0], hex[1]), hex_pair(hex[2], hex[3]), hex_pair(hex[4], hex[5])) {
        (Some(r), Some(g), Some(b)) => {
            assert forall|i: int| 0 <= i < 6 implies hex_digit(#[trigger] hex@[i]) by {
                assert(i == 0 || i == 1 || i == 2 || i == 3 || i == 4 || i == 5);
            }
            Some(Color::rgb(r, g, b))
        },
        _ => {
            assert(!hex_digit(hex@[0]) || !hex_digit(hex@[1]) || !hex_digit(hex@[2]) || !hex_digit(
                hex@[3],
            ) || !hex_digit(hex@[4]) || !hex_digit(hex@[5]));
            None
        },
    }
}

/// Strips `name`, the parentheses, and white space between the two.
pub fn strip_call<'a>(s: &'a [char], name: &str) -> (r: Option<&'a [char]>)
    ensures
        r is Some <==> call_args(s@, name@) is Some,
        r matches Some(inner) ==> call_args(s@, name@) == Some(inner@),
{
    match strip_prefix(s, name) {
        None => None,
        Some(rest) => {
            let t = trim_start(rest);
            let n: usize = t.len();
            if n >= 2 && t[0] == '(' && t[n - 1] == ')' {
                Some(slice_subrange(t, 1, n - 1))
            } else {
                None
            }
        },
    }
}

/// Splits at commas and trims each part.
pub fn split_args(s: &[char]) -> (r: Vec<Vec<char>>)
    ensures
        r@.map_values(|p: Vec<char>| p@) == arguments(s@),
{
    let pieces = split(s, ',');
    let ghost whole = pieces@.map_values(|p: Vec<char>| p@);
    let mut out: Vec<Vec<char>> = Vec::new();
    let n: usize = pieces.len();
    let mut i: usize = 0;
    while i < n
        invariant
            n == pieces@.len(),
            i <= n,
            whole == pieces@.map_values(|p: Vec<char>| p@),
            out@.map_values(|p: Vec<char>| p@) == whole.take(i as int).map_values(
                |p: Seq<char>| trimmed(p),
            ),
        decreases n - i,
    {
        let t = trim(pieces[i].as_slice());
        let part: Vec<char> = copied(t);
        assert(whole[i as int] == pieces@[i as int]@);
        let ghost before = out@.map_values(|p: Vec<char>| p@);
        let ghost last = part@;
        out.push(part);
        assert(out@.map_values(|p: Vec<char>| p@) == before.push(last));
        i = i + 1;
        assert(whole.take(i as int) == whole.take(i - 1).push(whole[i - 1]));
    }
    assert(whole.take(n as int) == whole);
    out
}

fn copied(s: &[char]) -> (r: Vec<char>)
    ensures
        r@ == s@,
{
    let mut out: Vec<char> = Vec::new();
    let n: usize = s.len();
    let mut i: usize = 0;
    while i < n
        invariant
            n == s@.len(),
            i <= n,
            out@ == s@.take(i as int),
        decreases n - i,
    {
        out.push(s[i]);
        i = i + 1;
        assert(s@.take(i as int) == s@.take(i - 1).push(s@[i - 1]));
    }
    assert(s@.take(n as int) == s@);
    out
}

/// Reads a component in 0-255.
pub fn parse_byte(s: &[char]) -> (r: Result<u8, ColorError>)
    ensures
        outcome_is(r, component(s@)),
{
    match parse_unsigned(s, 255) {
        Some(v) => Ok(v as u8),
        None => Err(ColorError::InvalidByte(string_of(s))),
    }
}

/// CSS-style alpha: a number in `[0.0, 1.0]`, mapped to `[0, 255]`.
pub fn parse_alpha(s: &[char]) -> (r: Result<u8, ColorError>)
    ensures
        outcome_is(r, alpha_component(s@)),
{
    match read_alpha(s) {
        Alpha::Byte(b) => Ok(b),
        Alpha::OutOfRange => Err(ColorError::AlphaOutOfRange(string_of(s))),
        Alpha::NotANumber => Err(ColorError::InvalidAlpha(string_of(s))),
    }
}

/// Reads the first three components.
fn parse_opaque(parts: &Vec<Vec<char>>) -> (r: Result<Color, ColorError>)
    requires
        parts@.len() >= 3,
    ensures
        outcome_is(r, opaque_color(parts@.map_values(|p: Vec<char>| p@))),
{
    let red: u8 = match parse_byte(parts[0].as_slice()) {
        Ok(v) => v,
        Err(e) => {
            return Err(e);
        },
    };
    let green: u8 = match parse_byte(parts[1].as_slice()) {
        Ok(v) => v,
        Err(e) => {
            return Err(e);
        },
    };
    let blue: u8 = match parse_byte(parts[2].as_slice()) {
        Ok(v) => v,
        Err(e) => {
            return Err(e);
        },
    };
    Ok(Color::rgb(red, green, blue))
}

impl Color {
    /// An opaque colour.
    pub fn rgb(r: u8, g: u8, b: u8) -> (c: Self)
        ensures
            c == (Color { r, g, b, a: 255 }),
    {
        Color { r, g, b, a: 255 }
    }

    /// A colour with alpha.
    pub fn rgba(r: u8, g: u8, b: u8, a: u8) -> (c: Self)
        ensures
            c == (Color { r, g, b, a }),
    {
        Color { r, g, b, a }
    }

    /// The channels without alpha: red, green, blue.
    pub fn to_rgb(self) -> (p: [u8; 3])
        ensures
            p@ == seq![self.r, self.g, self.b],
    {
        let p: [u8; 3] = [self.r, self.g, self.b];
        assert(p@ == seq![self.r, self.g, self.b]);
        p
    }

    /// Reads a colour.
    pub fn parse(text: &str) -> (r: Result<Color, ColorError>)
        ensures
            outcome_is(r, color_text(text@)),
    {
        let chars = chars_of(text);
        let s = trim(chars.as_slice());
        let n: usize = s.len();
        if n > 0 && s[0] == '#' {
            let digits = slice_subrange(s, 1, n);
            assert(digits@ == s@.drop_first());
            return match parse_hex(digits) {
                Some(c) => Ok(c),
                None => Err(ColorError::InvalidHex(string_of(s))),
            };
        }
        if let Some(inner) = strip_call(s, "rgba") {
            let parts = split_args(inner);
            let ghost views = parts@.map_values(|p: Vec<char>| p@);
            assert(views.len() == parts@.len());
            if parts.len() != 4 {
                return Err(ColorError::RgbaComponents(parts.len()));
            }
            let c: Color = match parse_opaque(&parts) {
                Ok(c) => c,
                Err(e) => {
                    return Err(e);
                },
            };
            assert(views[3] == parts@[3]@);
            return match parse_alpha(parts[3].as_slice()) {
                Ok(a) => Ok(Color::rgba(c.r, c.g, c.b, a)),
                Err(e) => Err(e),
            };
        }
        if let Some(inner) = strip_call(s, "rgb") {
            let parts = split_args(inner);
            let ghost views = parts@.map_values(|p: Vec<char>| p@);
            assert(views.len() == parts@.len());
            if parts.len() != 3 {
                return Err(ColorError::RgbComponents(parts.len()));
            }
            return parse_opaque(&parts);
        }
        Err(ColorError::Unrecognised(string_of(s)))
    }
}

impl FromStr for Color {
    type Err = ColorError;

    fn from_str(s: &str) -> (r: Result<Self, Self::Err>)
        ensures
            outcome_is(r, color_text(s@)),
    {
        Color::parse(s)
    }
}

/// A colour is opaque wherever its notation does not give an alpha.
pub proof fn law_opaque_without_alpha(text: Seq<char>)
    requires
        call_args(trimmed(text), "rgba"@) is None || trimmed(text)[0] == '#',
    ensures
        color_text(text) matches Ok(c) ==> c.a == 255,
{
    let s = trimmed(text);
    if s.len() == 0 {
        reveal_strlit("rgba");
        assert(!begins_with(s, "rgba"@));
    }
}

/// Whether a character is the hexadecimal digit for a number below sixteen, in either
/// case.
pub open spec fn hex_for(c: char, d: int) -> bool {
    ||| 0 <= d < 10 && c as int == 48 + d
    ||| 10 <= d < 16 && (c as int == 97 + d - 10 || c as int == 65 + d - 10)
}

/// `#` and six hexadecimal digits give the colour whose red, green and blue are the
/// three pairs of digits, the first of a pair counting sixteen; it is opaque.
pub proof fn law_hex_pairs_give_the_channels(text: Seq<char>, h: Seq<char>, d: Seq<int>)
    requires
        trimmed(text) == seq!['#'] + h,
        h.len() == 6,
        d.len() == 6,
        forall|i: int| 0 <= i < 6 ==> hex_for(#[trigger] h[i], d[i]),
    ensures
        color_text(text) matches Ok(c) && c.r == 16 * d[0] + d[1] && c.g == 16 * d[2] + d[3] && c.b
            == 16 * d[4] + d[5] && c.a == 255,
{
    assert((seq!['#'] + h).drop_first() == h);
    assert forall|i: int| 0 <= i < 6 implies hex_digit(#[trigger] h[i]) && hex_value(h[i]) == d[i]
        && 0 <= d[i] < 16 by {
        assert(hex_for(h[i], d[i]));
    }
    assert(hex_value(h[0]) == d[0] && hex_value(h[1]) == d[1] && hex_value(h[2]) == d[2]
        && hex_value(h[3]) == d[3] && hex_value(h[4]) == d[4] && hex_value(h[5]) == d[5]);
}

/// After `#` anything but six hexadecimal digits is an error.
pub proof fn law_hex_needs_six_digits(text: Seq<char>, i: int)
    requires
        trimmed(text).len() > 0,
        trimmed(text)[0] == '#',
        trimmed(text).len() != 7 || (1 <= i < 7 && forall|d: int| !hex_for(trimmed(text)[i], d)),
    ensures
        color_text(text) == Err::<Color, ColorErrorView>(
            ColorErrorView::InvalidHex(trimmed(text)),
        ),
{
    let s = trimmed(text);
    if s.len() == 7 {
        let c = s[i];
        assert(s.drop_first()[i - 1] == c);
        if hex_digit(c) {
            assert(hex_for(c, hex_value(c)));
        }
    }
}

proof fn lemma_call(name: Seq<char>, gap: Seq<char>, inner: Seq<char>)
    requires
        all_white(gap),
    ensures
        call_args(name + gap + seq!['('] + inner + seq![')'], name) == Some(inner),
{
    let s = name + gap + seq!['('] + inner + seq![')'];
    let t = seq!['('] + inner + seq![')'];
    assert(s.skip(name.len() as int) == gap + t);
    lemma_white_goes(gap, t);
    assert(s.take(name.len() as int) == name);
    assert(t[0] == '(');
    assert(t.last() == ')');
    assert(t.subrange(1, t.len() - 1) == inner);
}

proof fn lemma_white_goes(gap: Seq<char>, t: Seq<char>)
    requires
        all_white(gap),
        t.len() > 0,
        !white_space(t[0]),
    ensures
        trimmed_start(gap + t) == t,
    decreases gap.len(),
{
    if gap.len() == 0 {
        assert(gap + t == t);
    } else {
        assert((gap + t)[0] == gap[0]);
        assert((gap + t).drop_first() == gap.drop_first() + t);
        assert forall|i: int| 0 <= i < gap.drop_first().len() implies white_space(
            #[trigger] gap.drop_first()[i],
        ) by {
            assert(gap.drop_first()[i] == gap[i + 1]);
        }
        lemma_white_goes(gap.drop_first(), t);
    }
}

/// `rgb(...)`, with white space where it may stand, gives the colour of its three
/// components in the order red, green, blue, each a number up to 255; it is opaque.
/// Another number of components is an error that names the number.
pub proof fn law_rgb_reads_its_components(
    text: Seq<char>,
    gap: Seq<char>,
    inner: Seq<char>,
    r: nat,
    g: nat,
    b: nat,
)
    requires
        all_white(gap),
        trimmed(text) == "rgb"@ + gap + seq!['('] + inner + seq![')'],
    ensures
        ({
            let parts = split_at_each(inner, ',');
            &&& parts.len() != 3 ==> color_text(text) == Err::<Color, ColorErrorView>(
                ColorErrorView::RgbComponents(parts.len()),
            )
            &&& parts.len() == 3 && r <= 255 && g <= 255 && b <= 255 && unsigned(
                trimmed(parts[0]),
                255,
            ) == Some(r) && unsigned(trimmed(parts[1]), 255) == Some(g) && unsigned(
                trimmed(parts[2]),
                255,
            ) == Some(b) ==> (color_text(text) matches Ok(c) && c.r == r && c.g == g && c.b == b
                && c.a == 255)
        }),
{
    reveal_strlit("rgb");
    reveal_strlit("rgba");
    let s = trimmed(text);
    lemma_call("rgb"@, gap, inner);
    assert(s[0] == 'r');
    let behind = gap + seq!['('] + inner + seq![')'];
    assert(s == "rgb"@ + behind);
    assert(s[3] == behind[0]);
    assert(behind[0] != 'a') by {
        if gap.len() > 0 {
            assert(behind[0] == gap[0]);
            assert(white_space(gap[0]));
        } else {
            assert(behind[0] == '(');
        }
    }
    if begins_with(s, "rgba"@) {
        assert(s.take(4)[3] == s[3]);
    }
    let parts = split_at_each(inner, ',');
    assert(arguments(inner).len() == parts.len());
}

/// `rgba(...)` takes a fourth component, the alpha; else it reads as `rgb(...)` does.
pub proof fn law_rgba_reads_its_components(
    text: Seq<char>,
    gap: Seq<char>,
    inner: Seq<char>,
    r: nat,
    g: nat,
    b: nat,
)
    requires
        all_white(gap),
        trimmed(text) == "rgba"@ + gap + seq!['('] + inner + seq![')'],
    ensures
        ({
            let parts = split_at_each(inner, ',');
            &&& parts.len() != 4 ==> color_text(text) == Err::<Color, ColorErrorView>(
                ColorErrorView::RgbaComponents(parts.len()),
            )
            &&& parts.len() == 4 && r <= 255 && g <= 255 && b <= 255 && unsigned(
                trimmed(parts[0]),
                255,
            ) == Some(r) && unsigned(trimmed(parts[1]), 255) == Some(g) && unsigned(
                trimmed(parts[2]),
                255,
            ) == Some(b) ==> match alpha_text(trimmed(parts[3])) {
                Alpha::Byte(a) => color_text(text) matches Ok(c) && c.r == r && c.g == g && c.b == b
                    && c.a == a,
                Alpha::OutOfRange => color_text(text) == Err::<Color, ColorErrorView>(
                    ColorErrorView::AlphaOutOfRange(trimmed(parts[3])),
                ),
                Alpha::NotANumber => color_text(text) == Err::<Color, ColorErrorView>(
                    ColorErrorView::InvalidAlpha(trimmed(parts[3])),
                ),
            }
        }),
{
    reveal_strlit("rgba");
    let s = trimmed(text);
    lemma_call("rgba"@, gap, inner);
    assert(s[0] == 'r');
    let parts = split_at_each(inner, ',');
    assert(arguments(inner).len() == parts.len());
}

/// A component that is no number up to 255 is an error that names it.
pub proof fn law_components_are_bytes(s: Seq<char>)
    ensures
        unsigned(s, 255) is None ==> component(s) == Err::<u8, ColorErrorView>(
            ColorErrorView::InvalidByte(s),
        ),
        unsigned(s, 255) matches Some(n) ==> n <= 255 && (component(s) matches Ok(v) && v == n),
{
}

/// The message for each error names the part at fault.
pub proof fn law_color_messages(s: Seq<char>, n: nat, alpha: Seq<char>)
    ensures
        color_message(ColorErrorView::InvalidHex(s), alpha) == "invalid hex colour `"@ + s + "`"@,
        color_message(ColorErrorView::RgbaComponents(n), alpha)
            == "rgba() takes 4 components, got "@ + decimal(n),
        color_message(ColorErrorView::RgbComponents(n), alpha) == "rgb() takes 3 components, got "@
            + decimal(n),
        color_message(ColorErrorView::InvalidByte(s), alpha) == "invalid 0-255 byte `"@ + s + "`"@,
        color_message(ColorErrorView::InvalidAlpha(s), alpha) == "invalid alpha `"@ + s + "`"@,
        color_message(ColorErrorView::AlphaOutOfRange(s), alpha) == "alpha "@ + alpha
            + " out of range [0.0, 1.0]"@,
        color_message(ColorErrorView::Unrecognised(s), alpha)
            == "expected `#RRGGBB`, `rgb(...)`, or `rgba(...)`, got `"@ + s + "`"@,
{
}

/// A text in none of the three notations is an error that names it, trimmed.
pub proof fn law_other_notations_are_refused(text: Seq<char>)
    requires
        !begins_with(trimmed(text), "rgb"@),
        trimmed(text).len() == 0 || trimmed(text)[0] != '#',
    ensures
        color_text(text) == Err::<Color, ColorErrorView>(
            ColorErrorView::Unrecognised(trimmed(text)),
        ),
{
    reveal_strlit("rgb");
    reveal_strlit("rgba");
    let s = trimmed(text);
    if begins_with(s, "rgba"@) {
        assert(s.take(3) == s.take(4).take(3));
        assert("rgba"@.take(3) == "rgb"@);
    }
}

/// Of the components that are no bytes the first is named, before any fault of the
/// alpha.
pub proof fn law_first_fault_is_named(parts: Seq<Seq<char>>)
    requires
        parts.len() >= 3,
    ensures
        unsigned(parts[0], 255) is None ==> opaque_color(parts) == Err::<Color, ColorErrorView>(
            ColorErrorView::InvalidByte(parts[0]),
        ),
        unsigned(parts[0], 255) is Some && unsigned(parts[1], 255) is None ==> opaque_color(parts)
            == Err::<Color, ColorErrorView>(ColorErrorView::InvalidByte(parts[1])),
        unsigned(parts[0], 255) is Some && unsigned(parts[1], 255) is Some && unsigned(
            parts[2],
            255,
        ) is None ==> opaque_color(parts) == Err::<Color, ColorErrorView>(
            ColorErrorView::InvalidByte(parts[2]),
        ),
{
}

/// `rgb(...)` and `rgba(...)` with a component that is no byte have the error of the
/// first such component.
pub proof fn law_faults_of_components(text: Seq<char>, gap: Seq<char>, inner: Seq<char>)
    requires
        all_white(gap),
        trimmed(text) == "rgb"@ + gap + seq!['('] + inner + seq![')'] || trimmed(text) == "rgba"@
            + gap + seq!['('] + inner + seq![')'],
        split_at_each(inner, ',').len() == if trimmed(text) == "rgb"@ + gap + seq!['('] + inner
            + seq![')'] {
            3int
        } else {
            4
        },
    ensures
        ({
            let a = trimmed(split_at_each(inner, ',')[0]);
            let b = trimmed(split_at_each(inner, ',')[1]);
            let c = trimmed(split_at_each(inner, ',')[2]);
            &&& unsigned(a, 255) is None ==> color_text(text) == Err::<Color, ColorErrorView>(
                ColorErrorView::InvalidByte(a),
            )
            &&& unsigned(a, 255) is Some && unsigned(b, 255) is None ==> color_text(text) == Err::<
                Color,
                ColorErrorView,
            >(ColorErrorView::InvalidByte(b))
            &&& unsigned(a, 255) is Some && unsigned(b, 255) is Some && unsigned(c, 255) is None
                ==> color_text(text) == Err::<Color, ColorErrorView>(
                ColorErrorView::InvalidByte(c),
            )
        }),
{
    reveal_strlit("rgb");
    reveal_strlit("rgba");
    let s = trimmed(text);
    let parts = arguments(inner);
    assert(parts.len() == split_at_each(inner, ',').len());
    law_first_fault_is_named(parts);
    if s == "rgb"@ + gap + seq!['('] + inner + seq![')'] {
        lemma_call("rgb"@, gap, inner);
        let behind = gap + seq!['('] + inner + seq![')'];
        assert(s == "rgb"@ + behind);
        assert(s[3] == behind[0]);
        assert(behind[0] != 'a') by {
            if gap.len() > 0 {
                assert(behind[0] == gap[0]);
                assert(white_space(gap[0]));
            } else {
                assert(behind[0] == '(');
            }
        }
        if begins_with(s, "rgba"@) {
            assert(s.take(4)[3] == s[3]);
        }
    } else {
        lemma_call("rgba"@, gap, inner);
    }
    assert(s[0] == 'r');
}

/// A text that does not begin with `#` and does not end in a closing parenthesis is in
/// none of the notations.
pub proof fn law_calls_end_in_a_parenthesis(text: Seq<char>)
    requires
        trimmed(text).len() > 0,
        trimmed(text)[0] != '#',
        trimmed(text).last() != ')',
    ensures
        color_text(text) == Err::<Color, ColorErrorView>(
            ColorErrorView::Unrecognised(trimmed(text)),
        ),
{
    let s = trimmed(text);
    reveal_strlit("rgb");
    reveal_strlit("rgba");
    lemma_same_end(s, 3);
    lemma_same_end(s, 4);
}

proof fn lemma_same_end(s: Seq<char>, k: int)
    requires
        s.len() > 0,
    ensures
        k <= s.len() && trimmed_start(s.skip(k)).len() > 0 && 0 <= k ==> trimmed_start(
            s.skip(k),
        ).last() == s.last(),
{
    if 0 <= k <= s.len() {
        let t = s.skip(k);
        lemma_start_keeps_end(t);
        if t.len() > 0 {
            assert(t.last() == s.last());
        }
    }
}

proof fn lemma_start_keeps_end(t: Seq<char>)
    ensures
        trimmed_start(t).len() > 0 ==> t.len() > 0 && trimmed_start(t).last() == t.last(),
    decreases t.len(),
{
    if t.len() > 0 && white_space(t[0]) {
        lemma_start_keeps_end(t.drop_first());
        if t.len() > 1 {
            assert(t.drop_first().last() == t.last());
        }
    }
}

} // verus!
