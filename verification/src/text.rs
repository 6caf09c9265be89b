//! Text building blocks: characters in and out of strings, decimal numbers,
//! trimming and splitting, all stated over sequences of characters.

use vstd::prelude::*;
use vstd::slice::slice_subrange;

verus! {

/// `String::push` appends one character at the end.
pub assume_specification[ String::push ](s: &mut String, ch: char)
    ensures
        final(s)@ == old(s)@.push(ch),
;

// ----- Characters ------------------------------------------------------------

/// The Unicode `White_Space` property.
pub open spec fn white_space(c: char) -> bool {
    let n = c as u32;
    ||| 0x09 <= n <= 0x0d
    ||| n == 0x20
    ||| n == 0x85
    ||| n == 0xa0
    ||| n == 0x1680
    ||| 0x2000 <= n <= 0x200a
    ||| n == 0x2028
    ||| n == 0x2029
    ||| n == 0x202f
    ||| n == 0x205f
    ||| n == 0x3000
}

/// Whether `c` has the Unicode `White_Space` property.
pub fn is_white_space(c: char) -> (r: bool)
    ensures
        r == white_space(c),
{
    let n: u32 = c as u32;
    (0x09 <= n && n <= 0x0d) || n == 0x20 || n == 0x85 || n == 0xa0 || n == 0x1680 || (0x2000 <= n
        && n <= 0x200a) || n == 0x2028 || n == 0x2029 || n == 0x202f || n == 0x205f || n == 0x3000
}

/// An ASCII decimal digit.
pub open spec fn digit(c: char) -> bool {
    '0' <= c <= '9'
}

/// The number that an ASCII decimal digit stands for.
pub open spec fn digit_value(c: char) -> nat {
    (c as u32 - '0' as u32) as nat
}

pub fn is_digit(c: char) -> (r: bool)
    ensures
        r == digit(c),
{
    '0' <= c && c <= '9'
}

// ----- Strings and sequences of characters -----------------------------------

/// The characters of `s`, in order.
pub fn chars_of(s: &str) -> (r: Vec<char>)
    ensures
        r@ == s@,
{
    let mut out: Vec<char> = Vec::new();
    for c in it: s.chars()
        invariant
            out@ == it.seq().take(it.index() as int),
            it.seq() == s@,
    {
        out.push(c);
    }
    out
}

/// The string made of `chars`.
pub fn string_of(chars: &[char]) -> (r: String)
    ensures
        r@ == chars@,
{
    let mut out = String::new();
    let n: usize = chars.len();
    let mut i: usize = 0;
    while i < n
        invariant
            n == chars@.len(),
            i <= n,
            out@ == chars@.take(i as int),
        decreases n - i,
    {
        out.push(chars[i]);
        i = i + 1;
        assert(chars@.take(i as int) == chars@.take(i - 1).push(chars@[i - 1]));
    }
    assert(chars@.take(n as int) == chars@);
    out
}

/// A string built by appending `tail` to `head`.
pub fn joined(head: String, tail: &str) -> (r: String)
    ensures
        r@ == head@ + tail@,
{
    let mut out = head;
    out.append(tail);
    out
}

/// Whether the two slices hold the same characters.
pub fn same_chars(a: &[char], b: &[char]) -> (r: bool)
    ensures
        r == (a@ == b@),
{
    let n: usize = a.len();
    if n != b.len() {
        return false;
    }
    let mut i: usize = 0;
    while i < n
        invariant
            n == a@.len(),
            n == b@.len(),
            i <= n,
            a@.take(i as int) == b@.take(i as int),
        decreases n - i,
    {
        if a[i] != b[i] {
            assert(a@[i as int] != b@[i as int]);
            return false;
        }
        i = i + 1;
        assert(a@.take(i as int) == a@.take(i - 1).push(a@[i - 1]));
        assert(b@.take(i as int) == b@.take(i - 1).push(b@[i - 1]));
    }
    assert(a@.take(n as int) == a@);
    assert(b@.take(n as int) == b@);
    true
}

/// Whether `chars` spells out `word`.
pub fn spells(chars: &[char], word: &str) -> (r: bool)
    ensures
        r == (chars@ == word@),
{
    let w = chars_of(word);
    same_chars(chars, w.as_slice())
}

/// Whether `s` begins with `head`.
pub open spec fn begins_with(s: Seq<char>, head: Seq<char>) -> bool {
    head.len() <= s.len() && s.take(head.len() as int) == head
}

/// What follows `head` in `chars`, if `chars` begins with it.
pub fn strip_prefix<'a>(chars: &'a [char], head: &str) -> (r: Option<&'a [char]>)
    ensures
        r is Some <==> begins_with(chars@, head@),
        r matches Some(rest) ==> rest@ == chars@.skip(head@.len() as int),
{
    let h = chars_of(head);
    if chars.len() < h.len() {
        return None;
    }
    if same_chars(slice_subrange(chars, 0, h.len()), h.as_slice()) {
        Some(slice_subrange(chars, h.len(), chars.len()))
    } else {
        None
    }
}

// ----- Trimming ----------------------------------------------------------------

/// `s` without its leading white space.
pub open spec fn trimmed_start(s: Seq<char>) -> Seq<char>
    decreases s.len(),
{
    if s.len() > 0 && white_space(s[0]) {
        trimmed_start(s.drop_first())
    } else {
        s
    }
}

/// `s` without its trailing white space.
pub open spec fn trimmed_end(s: Seq<char>) -> Seq<char>
    decreases s.len(),
{
    if s.len() > 0 && white_space(s.last()) {
        trimmed_end(s.drop_last())
    } else {
        s
    }
}

/// `s` without its leading and trailing white space.
pub open spec fn trimmed(s: Seq<char>) -> Seq<char> {
    trimmed_end(trimmed_start(s))
}

/// `chars` without its leading white space.
pub fn trim_start(chars: &[char]) -> (r: &[char])
    ensures
        r@ == trimmed_start(chars@),
{
    let n: usize = chars.len();
    let mut i: usize = 0;
    assert(chars@.skip(0) == chars@);
    while i < n && is_white_space(chars[i])
        invariant
            n == chars@.len(),
            i <= n,
            trimmed_start(chars@) == trimmed_start(chars@.skip(i as int)),
        decreases n - i,
    {
        assert(chars@.skip(i as int).drop_first() == chars@.skip(i + 1));
        i = i + 1;
    }
    assert(chars@.skip(i as int) == chars@.subrange(i as int, n as int));
    slice_subrange(chars, i, n)
}

/// `chars` without its leading and trailing white space.
pub fn trim(chars: &[char]) -> (r: &[char])
    ensures
        r@ == trimmed(chars@),
{
    let s = trim_start(chars);
    let mut n: usize = s.len();
    assert(s@.take(n as int) == s@);
    while n > 0 && is_white_space(s[n - 1])
        invariant
            n <= s@.len(),
            trimmed_end(s@) == trimmed_end(s@.take(n as int)),
        decreases n,
    {
        assert(s@.take(n as int).drop_last() == s@.take(n - 1));
        n = n - 1;
    }
    assert(s@.take(n as int) == s@.subrange(0, n as int));
    slice_subrange(s, 0, n)
}

// ----- Splitting -----------------------------------------------------------------

/// The pieces of `s` between the separators: one more than there are separators.
pub open spec fn split_at_each(s: Seq<char>, sep: char) -> Seq<Seq<char>>
    decreases s.len(),
{
    if s.len() == 0 {
        seq![s]
    } else {
        let before = split_at_each(s.drop_last(), sep);
        if s.last() == sep {
            before.push(Seq::empty())
        } else {
            before.drop_last().push(before.last().push(s.last()))
        }
    }
}

/// The pieces of `chars` between the separators.
pub fn split(chars: &[char], sep: char) -> (r: Vec<Vec<char>>)
    ensures
        r@.map_values(|p: Vec<char>| p@) == split_at_each(chars@, sep),
{
    let n: usize = chars.len();
    let mut done: Vec<Vec<char>> = Vec::new();
    let mut piece: Vec<char> = Vec::new();
    let mut i: usize = 0;
    assert(chars@.take(0) == Seq::<char>::empty());
    assert(done@.map_values(|p: Vec<char>| p@).push(piece@) == seq![chars@.take(0)]);
    while i < n
        invariant
            n == chars@.len(),
            i <= n,
            done@.map_values(|p: Vec<char>| p@).push(piece@) == split_at_each(
                chars@.take(i as int),
                sep,
            ),
        decreases n - i,
    {
        let ghost before = done@.map_values(|p: Vec<char>| p@);
        let ghost last = piece@;
        let c: char = chars[i];
        i = i + 1;
        proof {
            assert(chars@.take(i as int).drop_last() == chars@.take(i - 1));
            assert(before.push(last).last() == last);
            assert(before.push(last).drop_last() == before);
        }
        if c == sep {
            done.push(piece);
            piece = Vec::new();
            assert(done@.map_values(|p: Vec<char>| p@) == before.push(last));
        } else {
            piece.push(c);
        }
    }
    assert(chars@.take(n as int) == chars@);
    let ghost before = done@.map_values(|p: Vec<char>| p@);
    let ghost last = piece@;
    done.push(piece);
    assert(done@.map_values(|p: Vec<char>| p@) == before.push(last));
    done
}

// ----- Decimal numbers -------------------------------------------------------------

/// The digit character of a number below ten.
pub open spec fn digit_char(d: nat) -> char {
    (d + 48) as char
}

/// The decimal notation of `n`, without leading zeros.
pub open spec fn decimal(n: nat) -> Seq<char>
    decreases n,
{
    if n < 10 {
        seq![digit_char(n)]
    } else {
        decimal(n / 10).push(digit_char(n % 10))
    }
}

/// `n` in decimal notation.
pub fn decimal_of(n: u64) -> (r: String)
    ensures
        r@ == decimal(n as nat),
    decreases n,
{
    let d: u8 = 48 + (n % 10) as u8;
    if n < 10 {
        let mut out = String::new();
        out.push(d as char);
        assert(out@ == seq![digit_char(n as nat)]);
        out
    } else {
        let mut out = decimal_of(n / 10);
        out.push(d as char);
        out
    }
}

/// The decimal notation of `n`, with a minus sign where it is negative.
pub open spec fn signed_decimal(n: int) -> Seq<char> {
    if n < 0 {
        "-"@ + decimal((-n) as nat)
    } else {
        decimal(n as nat)
    }
}

/// `n` in decimal notation.
pub fn decimal_of_signed(n: i32) -> (r: String)
    ensures
        r@ == signed_decimal(n as int),
{
    if n < 0 {
        let size: i64 = -(n as i64);
        joined("-".to_owned(), decimal_of(size as u64).as_str())
    } else {
        decimal_of(n as u64)
    }
}

/// The number that a sequence of digits stands for; no digits stand for zero.
pub open spec fn digits_value(s: Seq<char>) -> nat
    decreases s.len(),
{
    if s.len() == 0 {
        0
    } else {
        10 * digits_value(s.drop_last()) + digit_value(s.last())
    }
}

/// Only decimal digits.
pub open spec fn all_digits(s: Seq<char>) -> bool {
    forall|i: int| 0 <= i < s.len() ==> digit(#[trigger] s[i])
}

/// An unsigned number up to `max`: digits, with an optional plus sign before them.
pub open spec fn unsigned(s: Seq<char>, max: nat) -> Option<nat> {
    let ds = if s.len() > 0 && s[0] == '+' {
        s.drop_first()
    } else {
        s
    };
    if ds.len() > 0 && all_digits(ds) && digits_value(ds) <= max {
        Some(digits_value(ds))
    } else {
        None
    }
}

/// Leading digits never make the number smaller.
pub proof fn lemma_digits_value_grows(s: Seq<char>, k: int)
    requires
        0 <= k <= s.len(),
        all_digits(s),
    ensures
        digits_value(s.take(k)) <= digits_value(s),
    decreases s.len() - k,
{
    if k == s.len() {
        assert(s.take(k) == s);
    } else {
        lemma_digits_value_grows(s, k + 1);
        assert(s.take(k + 1).drop_last() == s.take(k));
        assert(digits_value(s.take(k + 1)) >= digits_value(s.take(k)));
    }
}

/// Reads an unsigned number up to `max`.
pub fn parse_unsigned(chars: &[char], max: u64) -> (r: Option<u64>)
    ensures
        r is Some <==> unsigned(chars@, max as nat) is Some,
        r matches Some(v) ==> unsigned(chars@, max as nat) == Some(v as nat),
{
    let n: usize = chars.len();
    let start: usize = if n > 0 && chars[0] == '+' {
        1
    } else {
        0
    };
    let ghost ds = if chars@.len() > 0 && chars@[0] == '+' {
        chars@.drop_first()
    } else {
        chars@
    };
    assert(ds == chars@.skip(start as int));
    if start == n {
        return None;
    }
    let mut value: u64 = 0;
    let mut i: usize = start;
    while i < n
        invariant
            n == chars@.len(),
            start <= i <= n,
            start <= 1,
            ds == chars@.skip(start as int),
            ds == (if chars@.len() > 0 && chars@[0] == '+' {
                chars@.drop_first()
            } else {
                chars@
            }),
            all_digits(ds.take(i - start)),
            value == digits_value(ds.take(i - start)),
            value <= max,
        decreases n - i,
    {
        let c: char = chars[i];
        assert(c == ds[i - start]);
        if !is_digit(c) {
            return None;
        }
        let d: u64 = c as u64 - '0' as u64;
        proof {
            assert(ds.take(i - start + 1).drop_last() == ds.take(i - start));
            assert(digits_value(ds.take(i - start + 1)) == 10 * value + d);
            assert forall|k: int| 0 <= k < i - start + 1 implies digit(
                #[trigger] ds.take(i - start + 1)[k],
            ) by {
                if k < i - start {
                    assert(digit(ds.take(i - start)[k]));
                }
            }
        }
        if value > max / 10 || d > max || 10 * value > max - d {
            proof {
                if all_digits(ds) {
                    lemma_digits_value_grows(ds, i - start + 1);
                }
            }
            return None;
        }
        value = 10 * value + d;
        i = i + 1;
    }
    assert(ds.take(n - start) == ds);
    Some(value)
}

// ----- Laws ------------------------------------------------------------------------------------------

/// A number's decimal notation stands for the number, is made of digits alone, and
/// begins with a zero only where it is all of it; so different numbers are written
/// differently.
pub proof fn law_decimal_stands_for_the_number(n: nat)
    ensures
        digits_value(decimal(n)) == n,
        all_digits(decimal(n)),
        decimal(n).len() > 0,
        decimal(n)[0] == '0' ==> decimal(n).len() == 1,
        n > 0 ==> decimal(n)[0] != '0',
    decreases n,
{
    if n < 10 {
        reveal_with_fuel(digits_value, 2);
        let s = seq![digit_char(n)];
        assert(s.drop_last().len() == 0);
    } else {
        law_decimal_stands_for_the_number(n / 10);
        let head = decimal(n / 10);
        let s = head.push(digit_char(n % 10));
        assert(s.drop_last() == head);
        assert forall|i: int| 0 <= i < s.len() implies digit(#[trigger] s[i]) by {
            if i < head.len() {
                assert(s[i] == head[i]);
            }
        }
        assert(s[0] == head[0]);
    }
}

/// Reading a number's decimal notation gives the number, with or without a plus
/// sign, exactly where it is within the limit.
pub proof fn law_reading_undoes_writing(n: nat, max: nat)
    ensures
        n <= max ==> unsigned(decimal(n), max) == Some(n),
        n <= max ==> unsigned(seq!['+'] + decimal(n), max) == Some(n),
        n > max ==> unsigned(decimal(n), max) is None,
{
    law_decimal_stands_for_the_number(n);
    let d = decimal(n);
    assert(digit(d[0]));
    assert((seq!['+'] + d).drop_first() == d);
}

/// A text with anything but digits behind an optional plus sign is no number, nor is
/// one without a digit.
pub proof fn law_numbers_are_digits(s: Seq<char>, max: nat, i: int)
    ensures
        unsigned(s, max) matches Some(n) ==> n <= max,
        unsigned(Seq::empty(), max) is None,
        unsigned(seq!['+'], max) is None,
        0 <= i < s.len() && !('0' <= s[i] <= '9') && !(i == 0 && s[i] == '+') ==> unsigned(s, max)
            is None,
{
    if 0 <= i < s.len() && !('0' <= s[i] <= '9') && !(i == 0 && s[i] == '+') {
        if s[0] == '+' {
            assert(s.drop_first()[i - 1] == s[i]);
            assert(!digit(s.drop_first()[i - 1]));
        } else {
            assert(!digit(s[i]));
        }
    }
}

/// A negative number is written with a minus sign before its size.
pub proof fn law_sign_comes_first(n: int)
    ensures
        n >= 0 ==> signed_decimal(n) == decimal(n as nat),
        n < 0 ==> signed_decimal(n) == seq!['-'] + decimal((-n) as nat),
{
    reveal_strlit("-");
    assert("-"@ == seq!['-']);
}

/// Only white space.
pub open spec fn all_white(s: Seq<char>) -> bool {
    forall|i: int| 0 <= i < s.len() ==> white_space(#[trigger] s[i])
}

proof fn lemma_trimmed_start(s: Seq<char>) -> (k: int)
    ensures
        0 <= k <= s.len(),
        trimmed_start(s) == s.skip(k),
        all_white(s.take(k)),
        k < s.len() ==> !white_space(s[k]),
    decreases s.len(),
{
    if s.len() > 0 && white_space(s[0]) {
        let j = lemma_trimmed_start(s.drop_first());
        assert(s.drop_first().skip(j) == s.skip(j + 1));
        assert forall|i: int| 0 <= i < j + 1 implies white_space(#[trigger] s.take(j + 1)[i]) by {
            if i > 0 {
                assert(s.drop_first().take(j)[i - 1] == s[i]);
            }
        }
        if j + 1 < s.len() {
            assert(s.drop_first()[j] == s[j + 1]);
        }
        j + 1
    } else {
        assert(s.skip(0) == s);
        0
    }
}

proof fn lemma_trimmed_end(s: Seq<char>) -> (k: int)
    ensures
        0 <= k <= s.len(),
        trimmed_end(s) == s.take(k),
        all_white(s.skip(k)),
        k > 0 ==> !white_space(s[k - 1]),
    decreases s.len(),
{
    if s.len() > 0 && white_space(s.last()) {
        let k = lemma_trimmed_end(s.drop_last());
        assert(s.drop_last().take(k) == s.take(k));
        assert forall|i: int| 0 <= i < s.len() - k implies white_space(#[trigger] s.skip(k)[i]) by {
            if i < s.len() - 1 - k {
                assert(s.drop_last().skip(k)[i] == s[k + i]);
            }
        }
        k
    } else {
        assert(s.take(s.len() as int) == s);
        s.len() as int
    }
}

/// Trimming takes away white space at both ends, all of it, and nothing else.
pub proof fn law_trimming_takes_the_ends(s: Seq<char>)
    ensures
        exists|a: int, b: int|
            0 <= a <= b <= s.len() && trimmed(s) == #[trigger] s.subrange(a, b) && all_white(
                s.take(a),
            ) && all_white(s.skip(b)),
        trimmed(s).len() > 0 ==> !white_space(trimmed(s)[0]) && !white_space(trimmed(s).last()),
{
    let a = lemma_trimmed_start(s);
    let t = s.skip(a);
    let k = lemma_trimmed_end(t);
    assert(t.take(k) == s.subrange(a, a + k));
    assert(t.skip(k) == s.skip(a + k));
}

/// The pieces with the separator between each two.
pub open spec fn put_together(pieces: Seq<Seq<char>>, sep: char) -> Seq<char>
    decreases pieces.len(),
{
    if pieces.len() == 0 {
        Seq::empty()
    } else if pieces.len() == 1 {
        pieces[0]
    } else {
        put_together(pieces.drop_last(), sep).push(sep) + pieces.last()
    }
}

/// Splitting loses nothing: the pieces, put together again, give the text; and no
/// piece has a separator in it.
pub proof fn law_splitting_loses_nothing(s: Seq<char>, sep: char)
    ensures
        split_at_each(s, sep).len() > 0,
        put_together(split_at_each(s, sep), sep) == s,
        forall|i: int|
            0 <= i < split_at_each(s, sep).len() ==> !(#[trigger] split_at_each(s, sep)[i]).contains(
                sep,
            ),
    decreases s.len(),
{
    if s.len() > 0 {
        let before = split_at_each(s.drop_last(), sep);
        let all = split_at_each(s, sep);
        law_splitting_loses_nothing(s.drop_last(), sep);
        assert(s == s.drop_last().push(s.last()));
        if s.last() == sep {
            assert(all.drop_last() == before);
            assert(put_together(all, sep) == s);
        } else {
            let piece = before.last().push(s.last());
            assert(all.last() == piece);
            assert(all.drop_last() == before.drop_last());
            if before.len() == 1 {
                assert(all[0] == piece);
            } else {
                assert(put_together(before.drop_last(), sep).push(sep) + piece == (put_together(
                    before.drop_last(),
                    sep,
                ).push(sep) + before.last()).push(s.last()));
            }
            assert(put_together(all, sep) == s);
            if piece.contains(sep) {
                let k = choose|k: int| 0 <= k < piece.len() && piece[k] == sep;
                assert(before.last()[k] == sep);
                assert(before[before.len() - 1].contains(sep));
            }
            assert forall|i: int| 0 <= i < all.len() implies !(#[trigger] all[i]).contains(sep) by {
                if i < before.len() - 1 {
                    assert(all[i] == before[i]);
                }
            }
        }
    }
}

/// A text begins with a head exactly where it is the head and something behind it.
pub proof fn law_beginning_and_rest(s: Seq<char>, head: Seq<char>, rest: Seq<char>)
    ensures
        begins_with(head + rest, head),
        begins_with(s, head) ==> s == head + s.skip(head.len() as int),
{
    assert((head + rest).take(head.len() as int) == head);
    if begins_with(s, head) {
        assert(s == s.take(head.len() as int) + s.skip(head.len() as int));
    }
}

/// The digits stand for their numbers, and each digit counts ten times the next.
pub proof fn law_digits_count_by_place(s: Seq<char>, c: char)
    requires
        '0' <= c <= '9',
    ensures
        digit(c),
        digit_value(c) == c as int - 48,
        digits_value(s.push(c)) == 10 * digits_value(s) + (c as int - 48),
        digits_value(Seq::empty()) == 0,
{
    assert(s.push(c).drop_last() == s);
}

} // verus!
