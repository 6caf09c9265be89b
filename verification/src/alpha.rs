//! CSS-style alpha: a decimal number in `[0.0, 1.0]`, mapped to `[0, 255]` with
//! single-precision rounding, computed exactly on whole numbers.

use crate::text::{
    all_digits, digit, digits_value, is_digit, lemma_digits_value_grows, same_chars,
};
use vstd::arithmetic::div_mod::{
    lemma_fundamental_div_mod, lemma_fundamental_div_mod_converse,
};
use vstd::prelude::*;
use vstd::slice::slice_subrange;

verus! {

// ----- Powers --------------------------------------------------------------------

/// Ten to the power `n`.
pub open spec fn ten_to(n: nat) -> nat
    decreases n,
{
    if n == 0 {
        1
    } else {
        10 * ten_to((n - 1) as nat)
    }
}

/// Two to the power `n`.
pub open spec fn two_to(n: nat) -> nat
    decreases n,
{
    if n == 0 {
        1
    } else {
        2 * two_to((n - 1) as nat)
    }
}

proof fn lemma_ten_to_positive(n: nat)
    ensures
        ten_to(n) >= 1,
    decreases n,
{
    if n > 0 {
        lemma_ten_to_positive((n - 1) as nat);
    }
}

proof fn lemma_two_to_positive(n: nat)
    ensures
        two_to(n) >= 1,
    decreases n,
{
    if n > 0 {
        lemma_two_to_positive((n - 1) as nat);
    }
}

proof fn lemma_ten_to_add(a: nat, b: nat)
    ensures
        ten_to(a + b) == ten_to(a) * ten_to(b),
    decreases a,
{
    if a == 0 {
        assert(1 * ten_to(b) == ten_to(b));
    } else {
        lemma_ten_to_add((a - 1) as nat, b);
        let x = ten_to((a - 1) as nat);
        let y = ten_to(b);
        assert(10 * (x * y) == (10 * x) * y) by (nonlinear_arith);
    }
}

// ----- Single-precision rounding ---------------------------------------------------

/// The whole number nearest to `num / den`, ties to the even one.
pub open spec fn nearest_even(num: int, den: int) -> int {
    let q = num / den;
    let r = num % den;
    if 2 * r > den || (2 * r == den && q % 2 == 1) {
        q + 1
    } else {
        q
    }
}

/// The least number of doublings that brings `num / den` up to one or more.
pub open spec fn doublings_to_one(num: int, den: int) -> nat
    decreases
            (if den > num {
                den - num
            } else {
                0
            }),
{
    if num <= 0 || num >= den {
        0
    } else {
        1 + doublings_to_one(2 * num, den)
    }
}

/// `num / den`, rounded to single precision, times 255, rounded to single
/// precision, then to the nearest whole number with halves going up. What lies
/// below 1/1024 maps to zero whatever its rounding.
pub open spec fn alpha_byte(num: int, den: int) -> int {
    if 1024 * num < den {
        0
    } else {
        let s = two_to(23 + doublings_to_one(num, den)) as int;
        let significand = nearest_even(num * s, den);
        let product = 255 * significand;
        let step: int = if product < 0x8000_0000 {
            128
        } else {
            256
        };
        let rounded = nearest_even(product, step) * step;
        (2 * rounded + s) / (2 * s)
    }
}

/// The alpha of the number `value * 10^exponent` with the given sign; `None`
/// where its single-precision value is outside `[0.0, 1.0]`. Up to `1 + 2^-24`
/// rounds to one, and a negative number no larger than `2^-150` rounds to zero.
pub open spec fn alpha_of(negative: bool, value: nat, exponent: int) -> Option<int> {
    let num: int = if exponent >= 0 {
        (value * ten_to(exponent as nat)) as int
    } else {
        value as int
    };
    let den: int = if exponent >= 0 {
        1
    } else {
        ten_to((-exponent) as nat) as int
    };
    if negative {
        if num * two_to(150) <= den {
            Some(0)
        } else {
            None
        }
    } else if num * 0x100_0000 <= den * 0x100_0001 {
        Some(alpha_byte(num, den))
    } else {
        None
    }
}

// ----- Decimal digits, least significant first ---------------------------------------

/// Every entry is a decimal digit.
spec fn digits_ok(s: Seq<u8>) -> bool {
    forall|i: int| 0 <= i < s.len() ==> #[trigger] s[i] < 10
}

/// The number that the digits stand for, the first one counting units.
spec fn number(s: Seq<u8>) -> nat
    decreases s.len(),
{
    if s.len() == 0 {
        0
    } else {
        number(s.drop_last()) + s.last() as nat * ten_to((s.len() - 1) as nat)
    }
}

proof fn lemma_number_bound(s: Seq<u8>)
    requires
        digits_ok(s),
    ensures
        number(s) < ten_to(s.len()),
    decreases s.len(),
{
    if s.len() > 0 {
        lemma_number_bound(s.drop_last());
        let t = ten_to((s.len() - 1) as nat);
        let d = s.last() as nat;
        assert(d * t <= 9 * t) by (nonlinear_arith)
            requires
                d <= 9,
        ;
    }
}

proof fn lemma_number_one(d: u8)
    ensures
        number(seq![d]) == d as nat,
{
    reveal_with_fuel(number, 2);
    let s = seq![d];
    assert(s.drop_last().len() == 0);
    assert(number(s.drop_last()) == 0);
    assert(ten_to(0) == 1);
    assert(d as nat * ten_to(0) == d as nat) by (nonlinear_arith)
        requires
            ten_to(0) == 1,
    ;
}

/// Splitting the digits splits the number.
proof fn lemma_number_split(s: Seq<u8>, k: nat)
    requires
        k <= s.len(),
    ensures
        number(s) == number(s.take(k as int)) + ten_to(k) * number(s.skip(k as int)),
    decreases s.len() - k,
{
    if k == s.len() {
        assert(s.take(k as int) == s);
        assert(s.skip(k as int).len() == 0);
        assert(ten_to(k) * 0 == 0) by (nonlinear_arith);
    } else {
        let front = s.drop_last();
        lemma_number_split(front, k);
        assert(front.take(k as int) == s.take(k as int));
        assert(s.skip(k as int).drop_last() == front.skip(k as int));
        let m = (s.len() - 1 - k) as nat;
        lemma_ten_to_add(k, m);
        let d = s.last() as nat;
        let a = ten_to(k);
        let b = ten_to(m);
        let c = number(front.skip(k as int));
        assert(a * (c + d * b) == a * c + d * (a * b)) by (nonlinear_arith);
    }
}

/// Doubles the number.
fn double(v: &mut Vec<u8>)
    requires
        digits_ok(old(v)@),
    ensures
        digits_ok(final(v)@),
        number(final(v)@) == 2 * number(old(v)@),
        old(v)@.len() <= final(v)@.len() <= old(v)@.len() + 1,
{
    let ghost before = v@;
    let n: usize = v.len();
    let mut carry: u8 = 0;
    let mut i: usize = 0;
    while i < n
        invariant
            n == before.len(),
            v@.len() == n,
            i <= n,
            carry <= 1,
            digits_ok(before),
            forall|j: int| 0 <= j < i ==> #[trigger] v@[j] < 10,
            forall|j: int| i <= j < n ==> #[trigger] v@[j] == before[j],
            number(v@.take(i as int)) + carry as nat * ten_to(i as nat) == 2 * number(
                before.take(i as int),
            ),
        decreases n - i,
    {
        let d: u8 = v[i];
        assert(d == before[i as int]);
        let t: u8 = 2 * d + carry;
        let low: u8 = t % 10;
        let high: u8 = t / 10;
        let ghost prev = v@;
        v.set(i, low);
        proof {
            assert(v@.take(i + 1).drop_last() == prev.take(i as int));
            assert(before.take(i + 1).drop_last() == before.take(i as int));
            let p = ten_to(i as nat);
            assert(ten_to((i + 1) as nat) == 10 * p);
            assert(low as nat * p + high as nat * (10 * p) == (2 * d as nat + carry as nat) * p)
                by (nonlinear_arith)
                requires
                    low as nat + 10 * high as nat == 2 * d as nat + carry as nat,
            ;
            assert((2 * d as nat + carry as nat) * p == 2 * (d as nat * p) + carry as nat * p)
                by (nonlinear_arith);
        }
        carry = high;
        i = i + 1;
    }
    proof {
        assert(v@.take(n as int) == v@);
        assert(before.take(n as int) == before);
    }
    if carry > 0 {
        let ghost prev = v@;
        v.push(carry);
        assert(v@.drop_last() == prev);
    }
}

/// Drops leading zeros, which stand at the end.
fn drop_zeros(v: &mut Vec<u8>)
    requires
        digits_ok(old(v)@),
    ensures
        digits_ok(final(v)@),
        number(final(v)@) == number(old(v)@),
        final(v)@.len() <= old(v)@.len(),
        final(v)@.len() > 0 ==> final(v)@.last() > 0,
{
    let ghost before = v@;
    while v.len() > 0 && v[v.len() - 1] == 0
        invariant
            digits_ok(v@),
            number(v@) == number(before),
            v@.len() <= before.len(),
        decreases v@.len(),
    {
        let ghost prev = v@;
        assert(prev.last() as nat * ten_to((prev.len() - 1) as nat) == 0) by (nonlinear_arith)
            requires
                prev.last() == 0,
        ;
        v.pop();
        assert(v@ == prev.drop_last());
    }
}

/// The digits of `chars`, least significant first.
fn digits_of(chars: &[char]) -> (r: Vec<u8>)
    requires
        all_digits(chars@),
    ensures
        digits_ok(r@),
        r@.len() == chars@.len(),
        number(r@) == digits_value(chars@),
{
    let mut out: Vec<u8> = Vec::new();
    let mut i: usize = chars.len();
    proof {
        assert(chars@.take(i as int) == chars@);
        assert(digits_value(chars@) * ten_to(0) == digits_value(chars@)) by (nonlinear_arith)
            requires
                ten_to(0) == 1,
        ;
    }
    while i > 0
        invariant
            i <= chars@.len(),
            all_digits(chars@),
            digits_ok(out@),
            out@.len() == chars@.len() - i,
            digits_value(chars@) == digits_value(chars@.take(i as int)) * ten_to(out@.len())
                + number(out@),
        decreases i,
    {
        let c: char = chars[i - 1];
        assert(digit(chars@[i - 1]));
        let d: u8 = (c as u32 - '0' as u32) as u8;
        let ghost prev = out@;
        proof {
            let head = chars@.take(i as int);
            assert(head.drop_last() == chars@.take(i - 1));
            let h = digits_value(chars@.take(i - 1));
            let t = ten_to(prev.len());
            assert(ten_to(prev.len() + 1) == 10 * t);
            assert((10 * h + d as nat) * t == h * (10 * t) + d as nat * t) by (nonlinear_arith);
        }
        out.push(d);
        assert(out@.drop_last() == prev);
        i = i - 1;
    }
    proof {
        let t = ten_to(out@.len());
        assert(digits_value(chars@.take(0)) == 0);
        assert(0 * t == 0) by (nonlinear_arith);
    }
    out
}

/// `nearest_even`, for a positive divisor.
fn round_even(num: u64, den: u64) -> (r: u64)
    requires
        den > 0,
        den < 0x1_0000_0000,
        num < 0x1_0000_0000_0000,
    ensures
        r == nearest_even(num as int, den as int),
{
    let q: u64 = num / den;
    let rem: u64 = num % den;
    if 2 * rem > den || (2 * rem == den && q % 2 == 1) {
        assert(num as int / den as int <= num as int) by (nonlinear_arith)
            requires
                den > 0,
        ;
        q + 1
    } else {
        q
    }
}

/// Multiplying both sides of a quotient by the same number keeps its rounding.
proof fn lemma_nearest_scaled(x: int, d: int, c: int)
    requires
        0 <= x,
        d > 0,
        c > 0,
    ensures
        nearest_even(x, d) == nearest_even(x * c, d * c),
{
    let q = x / d;
    let r = x % d;
    lemma_fundamental_div_mod(x, d);
    assert(d * c > 0) by (nonlinear_arith)
        requires
            d > 0,
            c > 0,
    ;
    assert(x * c == q * (d * c) + r * c) by (nonlinear_arith)
        requires
            x == d * q + r,
    ;
    assert(0 <= r * c < d * c) by (nonlinear_arith)
        requires
            0 <= r < d,
            c > 0,
    ;
    lemma_fundamental_div_mod_converse(x * c, d * c, q, r * c);
    assert((2 * (r * c) > d * c) == (2 * r > d)) by (nonlinear_arith)
        requires
            c > 0,
    ;
    assert((2 * (r * c) == d * c) == (2 * r == d)) by (nonlinear_arith)
        requires
            c > 0,
    ;
}

/// Rounding `(n + fraction) / c` needs of the fraction only whether it is zero.
proof fn lemma_nearest_from_floor(n: int, rem: int, den: int, c: int)
    requires
        0 <= n,
        0 <= rem < den,
        c >= 2,
        c % 2 == 0,
    ensures
        nearest_even(n * den + rem, den * c) == (if 2 * (n % c) > c || (2 * (n % c) == c && (rem
            > 0 || (n / c) % 2 == 1)) {
            n / c + 1
        } else {
            n / c
        }),
{
    let q = n / c;
    let r = n % c;
    lemma_fundamental_div_mod(n, c);
    let a = n * den + rem;
    let low = r * den + rem;
    assert(a == q * (den * c) + low) by (nonlinear_arith)
        requires
            n == c * q + r,
            a == n * den + rem,
            low == r * den + rem,
    ;
    assert(0 <= low < den * c) by (nonlinear_arith)
        requires
            0 <= r,
            r + 1 <= c,
            0 <= rem < den,
            low == r * den + rem,
    ;
    lemma_fundamental_div_mod_converse(a, den * c, q, low);
    if 2 * r > c {
        assert(2 * r >= c + 2);
        assert(2 * low > den * c) by (nonlinear_arith)
            requires
                2 * r >= c + 2,
                0 <= rem < den,
                low == r * den + rem,
        ;
    } else if 2 * r == c {
        assert(2 * low == den * c + 2 * rem) by (nonlinear_arith)
            requires
                2 * r == c,
                low == r * den + rem,
        ;
    } else {
        assert(2 * r + 2 <= c);
        assert(2 * low < den * c) by (nonlinear_arith)
            requires
                2 * r + 2 <= c,
                0 <= rem < den,
                low == r * den + rem,
        ;
    }
}

/// Where the number of doublings is known to suffice and one fewer is not enough.
proof fn lemma_doublings(num: int, den: int, k: nat)
    requires
        num > 0,
        den > 0,
        num * two_to(k) >= den,
        k > 0 ==> num * two_to((k - 1) as nat) < den,
    ensures
        doublings_to_one(num, den) == k,
    decreases k,
{
    if k > 0 {
        let t = two_to((k - 1) as nat);
        lemma_two_to_positive((k - 1) as nat);
        assert(num <= num * t) by (nonlinear_arith)
            requires
                num > 0,
                t >= 1,
        ;
        assert((2 * num) * t == num * (2 * t)) by (nonlinear_arith);
        if k > 1 {
            let u = two_to((k - 2) as nat);
            assert(t == 2 * u);
            assert((2 * num) * u == num * (2 * u)) by (nonlinear_arith);
        }
        lemma_doublings(2 * num, den, (k - 1) as nat);
    } else {
        assert(num * 1 == num);
    }
}

/// What is left of 2048 after `k` halvings, where it is four or more.
proof fn lemma_halves(k: nat, c: int)
    requires
        two_to(k) * c == 2048,
        c >= 4,
        k <= 10,
    ensures
        k <= 9,
        c % 4 == 0,
{
    reveal_with_fuel(two_to, 12);
    let e = two_to(k) as int;
    assert(k == 0 || k == 1 || k == 2 || k == 3 || k == 4 || k == 5 || k == 6 || k == 7 || k == 8
        || k == 9 || k == 10);
    assert(e == 1 || e == 2 || e == 4 || e == 8 || e == 16 || e == 32 || e == 64 || e == 128 || e
        == 256 || e == 512 || e == 1024);
    assert(e == 1 ==> 1 * c == 2048);
    assert(e == 2 ==> 2 * c == 2048);
    assert(e == 4 ==> 4 * c == 2048);
    assert(e == 8 ==> 8 * c == 2048);
    assert(e == 16 ==> 16 * c == 2048);
    assert(e == 32 ==> 32 * c == 2048);
    assert(e == 64 ==> 64 * c == 2048);
    assert(e == 128 ==> 128 * c == 2048);
    assert(e == 256 ==> 256 * c == 2048);
    assert(e == 512 ==> 512 * c == 2048);
    assert(e == 1024 ==> 1024 * c == 2048);
}

/// The alpha of a number `num / den` of which `n` is the whole part of `2^34`
/// times it, and `sticky` says whether that leaves a fraction.
fn byte_from_floor(n: u64, sticky: bool, Ghost(num): Ghost<int>, Ghost(den): Ghost<int>) -> (r: u8)
    requires
        num > 0,
        den > 0,
        n == (num * 0x4_0000_0000) / den,
        sticky == ((num * 0x4_0000_0000) % den != 0),
        num * 0x100_0000 <= den * 0x100_0001,
    ensures
        r == alpha_byte(num, den),
{
    let ghost big = num * 0x4_0000_0000;
    let ghost rem = big % den;
    proof {
        lemma_fundamental_div_mod(big, den);
        assert(big == n * den + rem) by (nonlinear_arith)
            requires
                big == den * n + rem,
        ;
        assert(big <= den * 0x4_0000_0400);
        assert(n <= 0x4_0000_0400) by (nonlinear_arith)
            requires
                n * den + rem <= den * 0x4_0000_0400,
                rem >= 0,
                den > 0,
        ;
        assert((1024 * num < den) == (n < 0x100_0000)) by (nonlinear_arith)
            requires
                num * 0x4_0000_0000 == n * den + rem,
                0 <= rem < den,
        ;
    }
    if n < 0x100_0000 {
        return 0;
    }
    let mut floor: u64 = 0x4_0000_0000;
    let mut c: u64 = 2048;
    let mut s: u64 = 0x80_0000;
    let ghost mut k: nat = 0;
    assert(two_to(23) == 0x80_0000) by {
        reveal_with_fuel(two_to, 24);
    }
    while n < floor
        invariant
            n >= 0x100_0000,
            floor >= 0x100_0000,
            k <= 10,
            floor == 0x80_0000 * c,
            s == two_to(23 + k),
            s * c == 0x4_0000_0000,
            s == 0x80_0000 * two_to(k),
            two_to(k) * c == 2048,
            2 <= c <= 2048,
            c % 2 == 0,
            k > 0 ==> n < 2 * floor,
            k == 0 ==> c == 2048,
        decreases c,
    {
        assert(c >= 4);
        let ghost (c0, s0, e) = (c as int, s as int, two_to(k) as int);
        proof {
            lemma_halves(k, c0);
            assert(two_to(24 + k) == 2 * two_to(23 + k));
            assert(two_to(k + 1) == 2 * e);
            assert((2 * s0) * (c0 / 2) == s0 * c0 && (2 * e) * (c0 / 2) == e * c0)
                by (nonlinear_arith)
                requires
                    c0 % 2 == 0,
            ;
        }
        assert(s <= 0x1_0000_0000) by (nonlinear_arith)
            requires
                s * c == 0x4_0000_0000,
                c >= 4,
        ;
        floor = floor / 2;
        c = c / 2;
        s = s * 2;
        proof {
            k = k + 1;
        }
    }
    proof {
        let e = two_to(k) as int;
        // num * e >= den, and one doubling fewer is below den.
        assert(e * c == 2048);
        assert(num * e * (c * 0x80_0000) == big) by (nonlinear_arith)
            requires
                e * c == 2048,
                big == num * 0x4_0000_0000,
        ;
        assert(num * e >= den) by (nonlinear_arith)
            requires
                num * e * (c * 0x80_0000) == n * den + rem,
                rem >= 0,
                n >= 0x80_0000 * c,
                c > 0,
                den > 0,
        ;
        if k > 0 {
            let h = two_to((k - 1) as nat) as int;
            assert(e == 2 * h);
            assert(num * h < den) by (nonlinear_arith)
                requires
                    num * (2 * h) * (c * 0x80_0000) == n * den + rem,
                    rem < den,
                    n + 1 <= 2 * (0x80_0000 * c),
                    c > 0,
                    den > 0,
            ;
        }
        lemma_doublings(num, den, k);
        assert(num * s * c == big) by (nonlinear_arith)
            requires
                s * c == 0x4_0000_0000,
                big == num * 0x4_0000_0000,
        ;
        assert(num * s >= 0) by (nonlinear_arith)
            requires
                num > 0,
                s >= 0,
        ;
        lemma_nearest_scaled(num * s, den, c as int);
        lemma_nearest_from_floor(n as int, rem, den, c as int);
    }
    let q: u64 = n / c;
    let part: u64 = n % c;
    assert(q <= n) by (nonlinear_arith)
        requires
            q == n / c,
            c >= 1,
    ;
    let significand: u64 = if 2 * part > c || (2 * part == c && (sticky || q % 2 == 1)) {
        q + 1
    } else {
        q
    };
    assert(significand == nearest_even(num * s, den));
    proof {
        lemma_fundamental_div_mod(n as int, c as int);
        if k == 0 {
            // At most one, give or take what rounds down to it.
            assert(c == 2048);
            assert(s == 0x80_0000);
            assert(n == 0x4_0000_0400 ==> rem == 0) by (nonlinear_arith)
                requires
                    n * den + rem <= den * 0x4_0000_0400,
                    0 <= rem < den,
            ;
            assert(significand <= s);
        } else {
            assert(q < 0x100_0000) by (nonlinear_arith)
                requires
                    n < 2 * (0x80_0000 * c),
                    n == c * q + part,
                    part >= 0,
                    c > 0,
            ;
            assert(two_to(k) == 2 * two_to((k - 1) as nat));
            lemma_two_to_positive((k - 1) as nat);
            assert(s >= 0x100_0000);
            assert(significand <= s);
        }
        assert(s <= 0x2_0000_0000) by (nonlinear_arith)
            requires
                s * c == 0x4_0000_0000,
                c >= 2,
        ;
        assert(significand <= 0x100_0000) by {
            assert(q <= 0x100_0000) by (nonlinear_arith)
                requires
                    n <= 2 * (0x80_0000 * c),
                    n == c * q + part,
                    part >= 0,
                    c > 0,
            ;
        }
    }
    let product: u64 = 255 * significand;
    let step: u64 = if product < 0x8000_0000 {
        128
    } else {
        256
    };
    let near: u64 = round_even(product, step);
    proof {
        lemma_fundamental_div_mod(product as int, step as int);
        let e = two_to(k) as int;
        let m: int = 255 * (if step == 128 {
            0x1_0000int
        } else {
            0x8000int
        }) * e;
        assert(255 * s == step * m) by (nonlinear_arith)
            requires
                s == 0x80_0000 * e,
                step == 128 && m == 255 * 0x1_0000 * e || step == 256 && m == 255 * 0x8000 * e,
        ;
        let f = product as int / step as int;
        let r = product as int % step as int;
        assert(product <= step * m);
        assert(f <= m && (f == m ==> r == 0)) by (nonlinear_arith)
            requires
                step * f + r <= step * m,
                0 <= r,
                step > 0,
        ;
        assert(near <= m);
        assert(near * step <= 255 * s) by (nonlinear_arith)
            requires
                near <= m,
                255 * s == step * m,
                step > 0,
        ;
    }
    let rounded: u64 = near * step;
    let byte: u64 = (2 * rounded + s) / (2 * s);
    assert(byte <= 255) by (nonlinear_arith)
        requires
            rounded <= 255 * s,
            s > 0,
            byte == (2 * rounded + s) / (2 * s),
    ;
    byte as u8
}

/// The whole number that the digits stand for, where it is known to be small.
fn small_number(v: &Vec<u8>, from: usize, Ghost(bound): Ghost<nat>) -> (r: u64)
    requires
        digits_ok(v@),
        from <= v@.len(),
        number(v@.skip(from as int)) <= bound,
        bound < 0x100_0000_0000_0000,
    ensures
        r == number(v@.skip(from as int)),
{
    let ghost all = v@.skip(from as int);
    let mut i: usize = v.len();
    let mut value: u64 = 0;
    assert(v@.skip(i as int).len() == 0);
    while i > from
        invariant
            from <= i <= v@.len(),
            digits_ok(v@),
            all == v@.skip(from as int),
            number(all) <= bound,
            bound < 0x100_0000_0000_0000,
            value == number(v@.skip(i as int)),
        decreases i,
    {
        let d: u8 = v[i - 1];
        proof {
            let tail = v@.skip(i - 1);
            assert(all.skip(i - 1 - from) == tail);
            lemma_number_split(all, (i - 1 - from) as nat);
            lemma_ten_to_positive((i - 1 - from) as nat);
            let t = ten_to((i - 1 - from) as nat);
            assert(number(tail) <= t * number(tail)) by (nonlinear_arith)
                requires
                    t >= 1,
            ;
            lemma_number_split(tail, 1);
            assert(tail.skip(1) == v@.skip(i as int));
            assert(tail.take(1) == seq![d]);
            lemma_number_one(d);
            assert(ten_to(1) == 10) by {
                reveal_with_fuel(ten_to, 2);
            }
            assert(number(tail) == d as nat + 10 * number(v@.skip(i as int)));
        }
        value = 10 * value + d as u64;
        i = i - 1;
    }
    value
}

/// Whether any of the first `k` digits is not zero.
fn some_nonzero(v: &Vec<u8>, k: usize) -> (r: bool)
    requires
        digits_ok(v@),
        k <= v@.len(),
    ensures
        r == (number(v@.take(k as int)) != 0),
{
    let mut i: usize = 0;
    while i < k
        invariant
            i <= k <= v@.len(),
            number(v@.take(i as int)) == 0,
        decreases k - i,
    {
        let d: u8 = v[i];
        proof {
            assert(v@.take(i + 1).drop_last() == v@.take(i as int));
            lemma_ten_to_positive(i as nat);
            let t = ten_to(i as nat);
            assert(d as nat * t == 0 <==> d == 0) by (nonlinear_arith)
                requires
                    t >= 1,
            ;
        }
        if d != 0 {
            proof {
                lemma_number_split(v@.take(k as int), (i + 1) as nat);
                assert(v@.take(k as int).take(i + 1) == v@.take(i + 1));
            }
            return true;
        }
        i = i + 1;
    }
    false
}

/// Doubles the number `times` times over.
fn double_times(v: &mut Vec<u8>, times: usize)
    requires
        digits_ok(old(v)@),
    ensures
        digits_ok(final(v)@),
        number(final(v)@) == number(old(v)@) * two_to(times as nat),
{
    let ghost start = number(v@);
    let mut i: usize = 0;
    assert(start * two_to(0) == start) by (nonlinear_arith)
        requires
            two_to(0) == 1,
    ;
    while i < times
        invariant
            i <= times,
            digits_ok(v@),
            number(v@) == start * two_to(i as nat),
        decreases times - i,
    {
        double(v);
        proof {
            let t = two_to(i as nat);
            assert(2 * (start * t) == start * (2 * t)) by (nonlinear_arith);
        }
        i = i + 1;
    }
}

/// A power of ten is at most a number exactly where the number has more digits;
/// a number is at most a power of ten where it has no more digits, or is that power.
fn at_most_power(v: &Vec<u8>, f: u128) -> (r: bool)
    requires
        digits_ok(v@),
        v@.len() > 0 ==> v@.last() > 0,
    ensures
        r == (number(v@) <= ten_to(f as nat)),
{
    let n: usize = v.len();
    if n as u128 <= f {
        proof {
            lemma_beyond(v@, f as nat);
        }
        return true;
    }
    let k: usize = f as usize;
    proof {
        // number == low + 10^f * high, with high at least one.
        lemma_number_split(v@, k as nat);
        let high = v@.skip(k as int);
        lemma_number_split(high, (high.len() - 1) as nat);
        assert(high.skip(high.len() - 1) == seq![v@.last()]);
        let top = v@.last() as nat;
        lemma_number_one(v@.last());
        let t = ten_to((high.len() - 1) as nat);
        lemma_ten_to_positive((high.len() - 1) as nat);
        assert(t * top >= 1) by (nonlinear_arith)
            requires
                t >= 1,
                top >= 1,
        ;
        let p = ten_to(k as nat);
        lemma_ten_to_positive(k as nat);
        let h = number(high);
        assert(h >= 1);
        assert(p * h >= p) by (nonlinear_arith)
            requires
                h >= 1,
        ;
        if n > k + 1 {
            assert(high.len() >= 2);
            assert(ten_to((high.len() - 1) as nat) == 10 * ten_to((high.len() - 2) as nat));
            lemma_ten_to_positive((high.len() - 2) as nat);
            assert(t * top >= 10) by (nonlinear_arith)
                requires
                    t >= 10,
                    top >= 1,
            ;
            assert(p * h >= 10 * p) by (nonlinear_arith)
                requires
                    h >= 10,
            ;
        } else {
            assert(high == seq![v@.last()]);
            assert(h == top);
            assert(top >= 2 ==> p * h >= 2 * p) by (nonlinear_arith)
                requires
                    h == top,
            ;
            assert(top == 1 ==> p * h == p) by (nonlinear_arith)
                requires
                    h == top,
            ;
        }
    }
    n == k + 1 && v[k] == 1 && !some_nonzero(v, k)
}

/// A power of ten, kept within machine range by cutting off what lies far beyond
/// the length of any text.
spec fn cut(whole: int, kept: int) -> bool {
    &&& -2 * FAR <= kept <= 2 * FAR
    &&& whole == kept || (whole > NEAR && kept > NEAR) || (whole < -NEAR && kept < -NEAR)
}

/// A bound beyond the length of any text.
const NEAR: i128 = 0x10_0000_0000_0000_0000;

/// A bound far beyond the length of any text.
const FAR: i128 = 0x100_0000_0000_0000_0000;

/// A number with more digits than the power of ten takes away is ten or more.
proof fn lemma_at_least_ten(value: nat, places: nat, exponent: int)
    requires
        value >= ten_to(places),
        places + exponent >= 1,
    ensures
        exponent >= 0 ==> value * ten_to(exponent as nat) >= 10,
        exponent < 0 ==> value >= 10 * ten_to((-exponent) as nat),
{
    if exponent >= 0 {
        let e = exponent as nat;
        lemma_ten_to_add(places, e);
        lemma_ten_to_positive(e);
        lemma_ten_to_positive((places + e - 1) as nat);
        assert(ten_to(places + e) == 10 * ten_to((places + e - 1) as nat));
        let a = ten_to(places);
        let b = ten_to(e);
        assert(value * b >= a * b) by (nonlinear_arith)
            requires
                value >= a,
        ;
    } else {
        let e = (-exponent) as nat;
        lemma_ten_to_add((places - e) as nat, e);
        let x = ten_to((places - e) as nat);
        let y = ten_to(e);
        lemma_ten_to_positive((places - e - 1) as nat);
        assert(x == 10 * ten_to((places - e - 1) as nat));
        assert(x * y >= 10 * y) by (nonlinear_arith)
            requires
                x >= 10,
        ;
    }
}

/// A power of ten lies beyond any number with fewer digits.
proof fn lemma_beyond(s: Seq<u8>, f: nat)
    requires
        digits_ok(s),
        s.len() <= f,
    ensures
        number(s) < ten_to(f),
{
    lemma_number_bound(s);
    let n = s.len();
    lemma_ten_to_add((f - n) as nat, n);
    lemma_ten_to_positive((f - n) as nat);
    let a = ten_to((f - n) as nat);
    let t = ten_to(n);
    assert(t <= a * t) by (nonlinear_arith)
        requires
            a >= 1,
    ;
}

/// The alpha of the number with the given sign whose significant digits are
/// `digits` and whose power of ten is `whole`, of which `exponent` is the cut form.
#[verifier::spinoff_prover]
fn alpha_of_digits(negative: bool, digits: Vec<u8>, exponent: i128, Ghost(whole): Ghost<int>) -> (r:
    Option<u8>)
    requires
        digits_ok(digits@),
        cut(whole, exponent as int),
    ensures
        r is Some <==> alpha_of(negative, number(digits@), whole) is Some,
        r matches Some(b) ==> alpha_of(negative, number(digits@), whole) == Some(b as int),
{
    let ghost value = number(digits@);
    let ghost num: int = if whole >= 0 {
        (value * ten_to(whole as nat)) as int
    } else {
        value as int
    };
    let ghost den: int = if whole >= 0 {
        1
    } else {
        ten_to((-whole) as nat) as int
    };
    let mut v = digits;
    drop_zeros(&mut v);
    let m: usize = v.len();
    proof {
        if whole < 0 {
            lemma_ten_to_positive((-whole) as nat);
        } else {
            lemma_ten_to_positive(whole as nat);
        }
        lemma_two_to_positive(150);
    }
    if m == 0 {
        proof {
            assert(value == 0);
            assert(num == 0) by {
                if whole >= 0 {
                    assert(0 * ten_to(whole as nat) == 0) by (nonlinear_arith);
                }
            }
            assert(num * two_to(150) == 0) by (nonlinear_arith)
                requires
                    num == 0,
            ;
        }
        return Some(0);
    }
    let ghost low = ten_to((m - 1) as nat);
    proof {
        // The leading digit is not zero.
        lemma_number_split(v@, (m - 1) as nat);
        assert(v@.skip(m - 1) == seq![v@.last()]);
        lemma_number_one(v@.last());
        lemma_number_bound(v@);
        lemma_ten_to_positive((m - 1) as nat);
        let top = v@.last() as nat;
        assert(low * top >= low) by (nonlinear_arith)
            requires
                top >= 1,
        ;
        assert(value >= low);
    }
    if m as i128 - 1 + exponent >= 1 {
        proof {
            assert(m - 1 + whole >= 1);
            lemma_at_least_ten(value, (m - 1) as nat, whole);
            lemma_two_to_positive(150);
            assert(num * two_to(150) >= num) by (nonlinear_arith)
                requires
                    num >= 0,
                    two_to(150) >= 1,
            ;
        }
        return None;
    }
    assert(m - 1 + whole <= 0);
    let f: u128 = (-exponent) as u128;
    let ghost places = (-whole) as nat;
    assert(whole == 0 ==> value * ten_to(0) == value) by {
        assert(value * ten_to(0) == value) by (nonlinear_arith)
            requires
                ten_to(0) == 1,
        ;
    }
    assert(num == value && den == ten_to(places));
    if negative {
        double_times(&mut v, 150);
        drop_zeros(&mut v);
        let small: bool = at_most_power(&v, f);
        assert(v@.len() == v.len() && v.len() <= usize::MAX);
        assert(small == (number(v@) <= ten_to(places))) by {
            if f != places {
                lemma_beyond(v@, f as nat);
                lemma_beyond(v@, places);
            }
        }
        if small {
            Some(0)
        } else {
            None
        }
    } else {
        double_times(&mut v, 34);
        assert(two_to(34) == 0x4_0000_0000) by {
            reveal_with_fuel(two_to, 35);
        }
        let n: usize = v.len();
        let ghost big = value * 0x4_0000_0000;
        assert(number(v@) == big);
        let (floor, sticky): (u64, bool) = if f >= n as u128 {
            proof {
                // Less than one: no whole part.
                lemma_beyond(v@, places);
                assert(big < den);
                lemma_fundamental_div_mod_converse(big as int, den, 0, big as int);
                assert(big > 0) by (nonlinear_arith)
                    requires
                        value >= low,
                        low >= 1,
                        big == value * 0x4_0000_0000,
                ;
            }
            (0, true)
        } else {
            let k: usize = f as usize;
            assert(places == k);
            proof {
                let whole_part = number(v@.skip(k as int)) as int;
                let rest = number(v@.take(k as int)) as int;
                lemma_number_split(v@, k as nat);
                lemma_number_bound(v@.take(k as int));
                assert(big == whole_part * den + rest) by (nonlinear_arith)
                    requires
                        big == rest + den * whole_part,
                ;
                lemma_fundamental_div_mod_converse(big as int, den, whole_part, rest);
                // value < 10^m <= 10 * den
                assert(value < 10 * den) by {
                    lemma_ten_to_add(m as nat, (places + 1 - m) as nat);
                    lemma_ten_to_positive((places + 1 - m) as nat);
                    let a = ten_to((places + 1 - m) as nat);
                    let b = ten_to(m as nat);
                    assert(b <= b * a) by (nonlinear_arith)
                        requires
                            a >= 1,
                    ;
                    assert(ten_to(places + 1) == 10 * ten_to(places));
                }
                assert(whole_part <= 0x100_0000_0000) by (nonlinear_arith)
                    requires
                        big == whole_part * den + rest,
                        big == value * 0x4_0000_0000,
                        value < 10 * den,
                        rest >= 0,
                        den > 0,
                ;
            }
            let a: u64 = small_number(&v, k, Ghost(0x100_0000_0000));
            let b: bool = some_nonzero(&v, k);
            (a, b)
        };
        let ghost rem = (big as int) % den;
        proof {
            lemma_fundamental_div_mod(big as int, den);
            assert(big == den * floor + rem);
            assert(0 <= rem < den);
            assert((num * 0x100_0000 <= den * 0x100_0001) == (big <= den * 0x4_0000_0400));
            assert((big <= den * 0x4_0000_0400) == (floor < 0x4_0000_0400 || (floor
                == 0x4_0000_0400 && rem == 0))) by (nonlinear_arith)
                requires
                    big == den * floor + rem,
                    0 <= rem < den,
            ;
        }
        if floor > 0x4_0000_0400 || (floor == 0x4_0000_0400 && sticky) {
            return None;
        }
        Some(byte_from_floor(floor, sticky, Ghost(num), Ghost(den)))
    }
}

// ----- Number literals ------------------------------------------------------------------

/// What a floating-point literal says.
pub ghost enum Literal {
    /// `inf`, `infinity` or `nan`.
    Special,
    /// `digits * 10^exponent`, with a sign.
    Decimal { negative: bool, digits: Seq<char>, exponent: int },
}

/// How many decimal digits `s` begins with.
pub open spec fn leading_digits(s: Seq<char>) -> nat
    decreases s.len(),
{
    if s.len() > 0 && digit(s[0]) {
        1 + leading_digits(s.drop_first())
    } else {
        0
    }
}

/// `s` without a sign before it.
pub open spec fn unsigned_part(s: Seq<char>) -> Seq<char> {
    if s.len() > 0 && (s[0] == '+' || s[0] == '-') {
        s.drop_first()
    } else {
        s
    }
}

/// `s` with a minus sign before it.
pub open spec fn has_minus(s: Seq<char>) -> bool {
    s.len() > 0 && s[0] == '-'
}

/// The lowercase form of an ASCII letter; any other character unchanged.
pub open spec fn ascii_lower(c: char) -> char {
    if 'A' <= c <= 'Z' {
        (c as u32 + 32) as char
    } else {
        c
    }
}

/// The words for what is not a number or not finite, in any case.
pub open spec fn special_word(s: Seq<char>) -> bool {
    let lower = s.map_values(|c: char| ascii_lower(c));
    lower == seq!['i', 'n', 'f'] || lower == seq!['i', 'n', 'f', 'i', 'n', 'i', 't', 'y'] || lower
        == seq!['n', 'a', 'n']
}

/// The exponent part: `e` or `E`, an optional sign, digits.
pub open spec fn exponent_part(s: Seq<char>) -> Option<int> {
    if s.len() == 0 {
        Some(0)
    } else if s[0] == 'e' || s[0] == 'E' {
        let t = s.drop_first();
        let ds = unsigned_part(t);
        if ds.len() > 0 && all_digits(ds) {
            Some(
                if has_minus(t) {
                    -(digits_value(ds) as int)
                } else {
                    digits_value(ds) as int
                },
            )
        } else {
            None
        }
    } else {
        None
    }
}

/// The digits after the point, if `s` begins with a point.
pub open spec fn fraction_digits(s: Seq<char>) -> Seq<char> {
    if s.len() > 0 && s[0] == '.' {
        s.drop_first().take(leading_digits(s.drop_first()) as int)
    } else {
        Seq::empty()
    }
}

/// What follows the point and the digits after it.
pub open spec fn after_fraction(s: Seq<char>) -> Seq<char> {
    if s.len() > 0 && s[0] == '.' {
        s.drop_first().skip(leading_digits(s.drop_first()) as int)
    } else {
        s
    }
}

/// The literal that `s` spells out: an optional sign, then a special word or
/// digits with an optional point among or around them and an optional exponent.
pub open spec fn literal(s: Seq<char>) -> Option<Literal> {
    let u = unsigned_part(s);
    if special_word(u) {
        Some(Literal::Special)
    } else {
        let n = leading_digits(u) as int;
        let rest = u.skip(n);
        let fraction = fraction_digits(rest);
        let digits = u.take(n) + fraction;
        match exponent_part(after_fraction(rest)) {
            Some(e) if digits.len() > 0 => Some(
                Literal::Decimal {
                    negative: has_minus(s),
                    digits,
                    exponent: e - fraction.len(),
                },
            ),
            _ => None,
        }
    }
}

/// What an alpha component turned out to be.
#[derive(Debug, Clone, Copy, PartialEq, Eq, Structural)]
pub enum Alpha {
    Byte(u8),
    OutOfRange,
    NotANumber,
}

/// The alpha that `s` spells out.
pub open spec fn alpha_text(s: Seq<char>) -> Alpha {
    match literal(s) {
        None => Alpha::NotANumber,
        Some(Literal::Special) => Alpha::OutOfRange,
        Some(Literal::Decimal { negative, digits, exponent }) => match alpha_of(
            negative,
            digits_value(digits),
            exponent,
        ) {
            Some(b) => Alpha::Byte(b as u8),
            None => Alpha::OutOfRange,
        },
    }
}

/// How many decimal digits `chars` begins with.
fn count_digits(chars: &[char]) -> (r: usize)
    ensures
        r == leading_digits(chars@),
        r <= chars@.len(),
        all_digits(chars@.take(r as int)),
{
    let n: usize = chars.len();
    let mut i: usize = 0;
    assert(chars@.skip(0) == chars@);
    while i < n && is_digit(chars[i])
        invariant
            n == chars@.len(),
            i <= n,
            all_digits(chars@.take(i as int)),
            leading_digits(chars@) == i + leading_digits(chars@.skip(i as int)),
        decreases n - i,
    {
        assert(chars@.skip(i as int).drop_first() == chars@.skip(i + 1));
        assert forall|k: int| 0 <= k < i + 1 implies digit(#[trigger] chars@.take(i + 1)[k]) by {
            if k < i {
                assert(digit(chars@.take(i as int)[k]));
            }
        }
        i = i + 1;
    }
    i
}

fn to_ascii_lower(c: char) -> (r: char)
    ensures
        r == ascii_lower(c),
{
    if 'A' <= c && c <= 'Z' {
        let b: u8 = c as u8;
        (b + 32) as char
    } else {
        c
    }
}

/// Whether `chars` is one of the words for what is not a number or not finite.
fn is_special_word(chars: &[char]) -> (r: bool)
    ensures
        r == special_word(chars@),
{
    let mut lower: Vec<char> = Vec::new();
    let n: usize = chars.len();
    let mut i: usize = 0;
    while i < n
        invariant
            n == chars@.len(),
            i <= n,
            lower@ == chars@.take(i as int).map_values(|c: char| ascii_lower(c)),
        decreases n - i,
    {
        lower.push(to_ascii_lower(chars[i]));
        i = i + 1;
        assert(chars@.take(i as int) == chars@.take(i - 1).push(chars@[i - 1]));
    }
    assert(chars@.take(n as int) == chars@);
    let inf: [char; 3] = ['i', 'n', 'f'];
    let infinity: [char; 8] = ['i', 'n', 'f', 'i', 'n', 'i', 't', 'y'];
    let nan: [char; 3] = ['n', 'a', 'n'];
    proof {
        assert(inf@ == seq!['i', 'n', 'f']);
        assert(infinity@ == seq!['i', 'n', 'f', 'i', 'n', 'i', 't', 'y']);
        assert(nan@ == seq!['n', 'a', 'n']);
    }
    same_chars(lower.as_slice(), inf.as_slice()) || same_chars(
        lower.as_slice(),
        infinity.as_slice(),
    ) || same_chars(lower.as_slice(), nan.as_slice())
}

/// Whether `chars` has a sign before it, and what follows the sign.
fn split_sign(chars: &[char]) -> (r: (bool, &[char]))
    ensures
        r.0 == has_minus(chars@),
        r.1@ == unsigned_part(chars@),
{
    let n: usize = chars.len();
    if n > 0 && (chars[0] == '+' || chars[0] == '-') {
        let rest = slice_subrange(chars, 1, n);
        assert(rest@ == chars@.drop_first());
        (chars[0] == '-', rest)
    } else {
        (false, chars)
    }
}

/// The digits as a number, cut off at `FAR`.
fn capped_value(chars: &[char]) -> (r: i128)
    requires
        all_digits(chars@),
    ensures
        0 <= r <= FAR,
        r == digits_value(chars@) || (r == FAR && digits_value(chars@) > FAR),
{
    let n: usize = chars.len();
    let mut value: i128 = 0;
    let mut i: usize = 0;
    while i < n
        invariant
            n == chars@.len(),
            i <= n,
            all_digits(chars@),
            0 <= value <= FAR,
            value == digits_value(chars@.take(i as int)),
        decreases n - i,
    {
        let c: char = chars[i];
        assert(digit(chars@[i as int]));
        let d: i128 = (c as u32 - '0' as u32) as i128;
        assert(chars@.take(i + 1).drop_last() == chars@.take(i as int));
        value = 10 * value + d;
        i = i + 1;
        if value > FAR {
            proof {
                lemma_digits_value_grows(chars@, i as int);
            }
            return FAR;
        }
    }
    assert(chars@.take(n as int) == chars@);
    value
}

/// The exponent, cut off at `FAR` on either side.
fn read_exponent(chars: &[char]) -> (r: Option<i128>)
    ensures
        r is Some <==> exponent_part(chars@) is Some,
        r matches Some(e) ==> {
            let whole = exponent_part(chars@).unwrap();
            &&& -FAR <= e <= FAR
            &&& whole == e || (whole > FAR && e == FAR) || (whole < -FAR && e == -FAR)
        },
{
    let n: usize = chars.len();
    if n == 0 {
        return Some(0);
    }
    if chars[0] != 'e' && chars[0] != 'E' {
        return None;
    }
    let t = slice_subrange(chars, 1, n);
    assert(t@ == chars@.drop_first());
    let (minus, ds) = split_sign(t);
    let k: usize = count_digits(ds);
    if k == 0 || k < ds.len() {
        proof {
            if all_digits(ds@) {
                lemma_leading_digits_all(ds@);
            }
        }
        return None;
    }
    assert(ds@.take(k as int) == ds@);
    let v: i128 = capped_value(ds);
    if minus {
        Some(-v)
    } else {
        Some(v)
    }
}

/// A text of digits only begins with all of them.
proof fn lemma_leading_digits_all(s: Seq<char>)
    requires
        all_digits(s),
    ensures
        leading_digits(s) == s.len(),
    decreases s.len(),
{
    if s.len() > 0 {
        assert(digit(s[0]));
        assert forall|k: int| 0 <= k < s.drop_first().len() implies digit(
            #[trigger] s.drop_first()[k],
        ) by {
            assert(digit(s[k + 1]));
        }
        lemma_leading_digits_all(s.drop_first());
    }
}

/// Reads an alpha component.
pub fn read_alpha(chars: &[char]) -> (r: Alpha)
    ensures
        r == alpha_text(chars@),
{
    let (negative, u) = split_sign(chars);
    if is_special_word(u) {
        return Alpha::OutOfRange;
    }
    let n: usize = count_digits(u);
    let rest = slice_subrange(u, n, u.len());
    assert(rest@ == u@.skip(n as int));
    let mut digits: Vec<char> = Vec::new();
    push_all(&mut digits, slice_subrange(u, 0, n));
    assert(digits@ == u@.take(n as int));
    let mut places: usize = 0;
    let mut tail = rest;
    if rest.len() > 0 && rest[0] == '.' {
        let after = slice_subrange(rest, 1, rest.len());
        assert(after@ == rest@.drop_first());
        places = count_digits(after);
        push_all(&mut digits, slice_subrange(after, 0, places));
        assert(after@.subrange(0, places as int) == after@.take(places as int));
        tail = slice_subrange(after, places, after.len());
        assert(tail@ == after@.skip(places as int));
    }
    let ghost fraction = fraction_digits(rest@);
    assert(digits@ == u@.take(n as int) + fraction);
    assert(fraction.len() == places);
    assert(tail@ == after_fraction(rest@));
    match read_exponent(tail) {
        Some(e) if digits.len() > 0 => {
            assert forall|k: int| 0 <= k < digits@.len() implies digit(#[trigger] digits@[k]) by {
                if k < n {
                    assert(digit(u@.take(n as int)[k]));
                } else {
                    assert(fraction == rest@.drop_first().take(places as int));
                    assert(digit(fraction[k - n]));
                }
            }
            let ghost whole = exponent_part(tail@).unwrap() - places;
            match alpha_of_digits(
                negative,
                digits_of(digits.as_slice()),
                e - places as i128,
                Ghost(whole),
            ) {
                Some(b) => Alpha::Byte(b),
                None => Alpha::OutOfRange,
            }
        },
        _ => Alpha::NotANumber,
    }
}

/// Appends `more` to `out`.
fn push_all(out: &mut Vec<char>, more: &[char])
    ensures
        final(out)@ == old(out)@ + more@,
{
    let n: usize = more.len();
    let mut i: usize = 0;
    while i < n
        invariant
            n == more@.len(),
            i <= n,
            out@ == old(out)@ + more@.take(i as int),
        decreases n - i,
    {
        out.push(more[i]);
        i = i + 1;
        assert(more@.take(i as int) == more@.take(i - 1).push(more@[i - 1]));
    }
    assert(more@.take(n as int) == more@);
}

// ----- Laws ------------------------------------------------------------------------------------------

proof fn lemma_nearest_even_bounds(num: int, den: int)
    requires
        den > 0,
        num >= 0,
    ensures
        2 * (nearest_even(num, den) * den) <= 2 * num + den,
        2 * (nearest_even(num, den) * den) >= 2 * num - den,
        nearest_even(num, den) >= 0,
{
    let q = num / den;
    let r = num % den;
    lemma_fundamental_div_mod(num, den);
    assert((q + 1) * den == q * den + den) by (nonlinear_arith);
    assert(q * den == den * q) by (nonlinear_arith);
    assert(q >= 0) by (nonlinear_arith)
        requires
            q == num / den,
            num >= 0,
            den > 0,
    ;
}

/// The byte for a number between 0 and 1 is 255 times the number, rounded to the
/// nearest, but for what single precision can lose: it is off by no more than a half
/// and a sixteen-thousandth.
pub proof fn law_alpha_is_255_times_the_number(num: int, den: int)
    requires
        0 <= num,
        0 < den,
    ensures
        16384 * (alpha_byte(num, den) * den) <= 16384 * (255 * num) + 8193 * den,
        16384 * (alpha_byte(num, den) * den) >= 16384 * (255 * num) - 8193 * den,
{
    if 1024 * num < den {
        assert(0 * den == 0) by (nonlinear_arith);
    } else {
        let k = doublings_to_one(num, den);
        let s = two_to(23 + k) as int;
        lemma_two_to_large(k);
        let sig = nearest_even(num * s, den);
        assert(num * s >= 0) by (nonlinear_arith)
            requires
                num >= 0,
                s > 0,
        ;
        lemma_nearest_even_bounds(num * s, den);
        let product = 255 * sig;
        let step: int = if product < 0x8000_0000 {
            128
        } else {
            256
        };
        lemma_nearest_even_bounds(product, step);
        let n = nearest_even(product, step);
        let rounded = n * step;
        let byte = (2 * rounded + s) / (2 * s);
        lemma_fundamental_div_mod(2 * rounded + s, 2 * s);
        vstd::arithmetic::div_mod::lemma_mod_bound(2 * rounded + s, 2 * s);
        assert(2 * rounded <= 2 * product + 256 && 2 * rounded >= 2 * product - 256);
        let bs = byte * s;
        assert((2 * s) * byte == 2 * bs) by (nonlinear_arith)
            requires
                bs == byte * s,
        ;
        assert(2 * bs <= 2 * rounded + s && 2 * bs >= 2 * rounded - s);
        assert(2 * bs <= 510 * sig + 256 + s);
        assert(2 * bs >= 510 * sig - 256 - s);
        lemma_scaled_bound(byte, sig, num, den, s);
    }
}

proof fn lemma_two_to_large(k: nat)
    ensures
        two_to(23 + k) >= 0x80_0000,
    decreases k,
{
    if k == 0 {
        reveal_with_fuel(two_to, 24);
    } else {
        lemma_two_to_large((k - 1) as nat);
    }
}

proof fn lemma_scaled_bound(byte: int, sig: int, num: int, den: int, s: int)
    requires
        den > 0,
        s >= 0x80_0000,
        2 * (byte * s) <= 510 * sig + 256 + s,
        2 * (byte * s) >= 510 * sig - 256 - s,
        2 * (sig * den) <= 2 * (num * s) + den,
        2 * (sig * den) >= 2 * (num * s) - den,
    ensures
        16384 * (byte * den) <= 16384 * (255 * num) + 8193 * den,
        16384 * (byte * den) >= 16384 * (255 * num) - 8193 * den,
{
    let bd = byte * den;
    let bs = byte * s;
    let sd = sig * den;
    let ns = num * s;
    let x = bd - 255 * num;
    assert(2 * (bs * den) <= 510 * sd + 256 * den + s * den) by (nonlinear_arith)
        requires
            2 * bs <= 510 * sig + 256 + s,
            sd == sig * den,
            den > 0,
    ;
    assert(2 * (bs * den) >= 510 * sd - 256 * den - s * den) by (nonlinear_arith)
        requires
            2 * bs >= 510 * sig - 256 - s,
            sd == sig * den,
            den > 0,
    ;
    assert(bs * den == bd * s) by (nonlinear_arith)
        requires
            bs == byte * s,
            bd == byte * den,
    ;
    // 2 * x * s is at most (s + 511) * den away from zero.
    assert(x * s == bd * s - 255 * ns) by (nonlinear_arith)
        requires
            x == bd - 255 * num,
            ns == num * s,
    ;
    assert(2 * (x * s) <= (s + 511) * den) by (nonlinear_arith)
        requires
            2 * (x * s) == 2 * (bd * s) - 510 * ns,
            2 * (bd * s) <= 510 * sd + 256 * den + s * den,
            2 * sd <= 2 * ns + den,
    ;
    assert(2 * (x * s) >= -((s + 511) * den)) by (nonlinear_arith)
        requires
            2 * (x * s) == 2 * (bd * s) - 510 * ns,
            2 * (bd * s) >= 510 * sd - 256 * den - s * den,
            2 * sd >= 2 * ns - den,
    ;
    assert(16384 * x <= 8193 * den) by (nonlinear_arith)
        requires
            2 * (x * s) <= (s + 511) * den,
            s >= 0x80_0000,
            den > 0,
    ;
    assert(16384 * x >= -(8193 * den)) by (nonlinear_arith)
        requires
            2 * (x * s) >= -((s + 511) * den),
            s >= 0x80_0000,
            den > 0,
    ;
}

/// What is no larger than one, and nothing else but for what single precision rounds
/// to one, has an alpha; below zero only what single precision rounds to zero has.
pub proof fn law_alpha_lies_between_zero_and_one(value: nat, places: nat)
    ensures
        value <= ten_to(places) ==> alpha_of(false, value, -(places as int)) == Some(
            alpha_byte(value as int, ten_to(places) as int),
        ),
        1_000_000 * value > 1_000_001 * ten_to(places) ==> alpha_of(
            false,
            value,
            -(places as int),
        ) is None,
        value == 0 ==> alpha_of(true, value, -(places as int)) == Some(0int),
        value > 0 && two_to(150) > ten_to(places) ==> alpha_of(true, value, -(places as int))
            is None,
{
    lemma_ten_to_positive(places);
    lemma_ten_to_positive(0);
    if places == 0 {
        assert(value * ten_to(0) == value) by (nonlinear_arith)
            requires
                ten_to(0) == 1,
        ;
    }
    if value == 0 {
        assert(0 * two_to(150) == 0) by (nonlinear_arith);
    } else {
        assert(value * two_to(150) >= two_to(150)) by (nonlinear_arith)
            requires
                value >= 1,
        ;
    }
}

proof fn lemma_leading(w: Seq<char>, rest: Seq<char>)
    requires
        all_digits(w),
        rest.len() == 0 || !digit(rest[0]),
    ensures
        leading_digits(w + rest) == w.len(),
    decreases w.len(),
{
    let s = w + rest;
    if w.len() == 0 {
        assert(s == rest);
    } else {
        assert(s[0] == w[0]);
        assert(digit(w[0]));
        assert(s.drop_first() == w.drop_first() + rest);
        assert forall|i: int| 0 <= i < w.drop_first().len() implies digit(
            #[trigger] w.drop_first()[i],
        ) by {
            assert(w.drop_first()[i] == w[i + 1]);
        }
        lemma_leading(w.drop_first(), rest);
    }
}

/// Digits, a point and digits stand for the number that they spell: the digits
/// together, over as many tens as stand behind the point. A minus sign makes it
/// negative, a plus sign changes nothing.
pub proof fn law_decimals_are_read_by_place(w: Seq<char>, f: Seq<char>)
    requires
        all_digits(w),
        all_digits(f),
        w.len() + f.len() > 0,
    ensures
        ({
            let s = w + seq!['.'] + f;
            &&& literal(s) == Some(
                Literal::Decimal { negative: false, digits: w + f, exponent: -(f.len() as int) },
            )
            &&& literal(seq!['-'] + s) == Some(
                Literal::Decimal { negative: true, digits: w + f, exponent: -(f.len() as int) },
            )
            &&& literal(seq!['+'] + s) == literal(s)
        }),
{
    let s = w + seq!['.'] + f;
    let behind = seq!['.'] + f;
    assert(s == w + behind);
    assert(s[0] == '.' || digit(s[0])) by {
        if w.len() > 0 {
            assert(s[0] == w[0]);
            assert(digit(w[0]));
        }
    }
    assert((seq!['-'] + s).drop_first() == s);
    assert((seq!['+'] + s).drop_first() == s);
    let lower = s.map_values(|c: char| ascii_lower(c));
    assert(lower[0] == s[0]);
    assert(lower[0] != 'i' && lower[0] != 'n');
    lemma_leading(w, behind);
    assert(s.skip(w.len() as int) == behind);
    assert(s.take(w.len() as int) == w);
    assert(behind.drop_first() == f);
    lemma_leading(f, Seq::empty());
    assert(f + Seq::<char>::empty() == f);
    assert(f.take(f.len() as int) == f);
    assert(f.skip(f.len() as int).len() == 0);
}

/// A text without any digit, but for the words for no number, is no alpha; those
/// words are out of range.
pub proof fn law_alpha_needs_a_digit(s: Seq<char>)
    requires
        forall|i: int| 0 <= i < s.len() ==> !digit(#[trigger] s[i]),
        !special_word(unsigned_part(s)),
    ensures
        alpha_text(s) == Alpha::NotANumber,
{
    let u = unsigned_part(s);
    assert forall|i: int| 0 <= i < u.len() implies !digit(#[trigger] u[i]) by {
        if u.len() < s.len() {
            assert(u[i] == s[i + 1]);
        }
    }
    if u.len() > 0 {
        assert(!digit(u[0]));
    }
    assert(leading_digits(u) == 0);
    assert(u.skip(0) == u);
    if u.len() > 1 {
        assert(u.drop_first()[0] == u[1]);
        assert(!digit(u[1]));
    }
    assert(fraction_digits(u).len() == 0);
}

/// An alpha that is read is the byte for the number that its digits spell.
pub proof fn law_alpha_of_decimals(w: Seq<char>, f: Seq<char>)
    requires
        all_digits(w),
        all_digits(f),
        w.len() + f.len() > 0,
    ensures
        alpha_text(w + seq!['.'] + f) == match alpha_of(
            false,
            digits_value(w + f),
            -(f.len() as int),
        ) {
            Some(b) => Alpha::Byte(b as u8),
            None => Alpha::OutOfRange,
        },
{
    law_decimals_are_read_by_place(w, f);
}

/// An exponent moves the point by its number: `e` or `E`, a sign where there is one,
/// and digits.
pub proof fn law_exponent_moves_the_point(
    w: Seq<char>,
    f: Seq<char>,
    e: char,
    ds: Seq<char>,
)
    requires
        all_digits(w),
        all_digits(f),
        all_digits(ds),
        w.len() + f.len() > 0,
        ds.len() > 0,
        e == 'e' || e == 'E',
    ensures
        ({
            let s = w + seq!['.'] + f;
            let n = digits_value(ds) as int;
            &&& literal(s + seq![e] + ds) == Some(
                Literal::Decimal { negative: false, digits: w + f, exponent: n - f.len() },
            )
            &&& literal(s + seq![e, '+'] + ds) == literal(s + seq![e] + ds)
            &&& literal(s + seq![e, '-'] + ds) == Some(
                Literal::Decimal { negative: false, digits: w + f, exponent: -n - f.len() },
            )
        }),
{
    assert(seq![e, '+'] + ds == seq![e] + (seq!['+'] + ds));
    assert(seq![e, '-'] + ds == seq![e] + (seq!['-'] + ds));
    lemma_with_exponent(w, f, seq![e] + ds, e, ds);
    lemma_with_exponent(w, f, seq![e, '+'] + ds, e, seq!['+'] + ds);
    lemma_with_exponent(w, f, seq![e, '-'] + ds, e, seq!['-'] + ds);
    assert(digit(ds[0]));
    assert((seq!['+'] + ds).drop_first() == ds);
    assert((seq!['-'] + ds).drop_first() == ds);
    assert(w + seq!['.'] + f + seq![e] + ds == w + seq!['.'] + f + (seq![e] + ds));
    assert(w + seq!['.'] + f + seq![e, '+'] + ds == w + seq!['.'] + f + (seq![e, '+'] + ds));
    assert(w + seq!['.'] + f + seq![e, '-'] + ds == w + seq!['.'] + f + (seq![e, '-'] + ds));
}

proof fn lemma_with_exponent(w: Seq<char>, f: Seq<char>, x: Seq<char>, e: char, t: Seq<char>)
    requires
        all_digits(w),
        all_digits(f),
        w.len() + f.len() > 0,
        e == 'e' || e == 'E',
        x == seq![e] + t,
    ensures
        literal(w + seq!['.'] + f + x) == match exponent_part(x) {
            Some(n) => Some(
                Literal::Decimal { negative: false, digits: w + f, exponent: n - f.len() },
            ),
            None => None,
        },
        x.drop_first() == t,
{
    let s = w + seq!['.'] + f + x;
    let behind = seq!['.'] + (f + x);
    assert(s == w + behind);
    assert(s[0] == '.' || digit(s[0])) by {
        if w.len() > 0 {
            assert(s[0] == w[0]);
            assert(digit(w[0]));
        }
    }
    let lower = s.map_values(|c: char| ascii_lower(c));
    assert(lower[0] == s[0]);
    assert(lower[0] != 'i' && lower[0] != 'n');
    lemma_leading(w, behind);
    assert(s.skip(w.len() as int) == behind);
    assert(s.take(w.len() as int) == w);
    assert(behind.drop_first() == f + x);
    assert(x[0] == e);
    lemma_leading(f, x);
    assert((f + x).take(f.len() as int) == f);
    assert((f + x).skip(f.len() as int) == x);
    assert(x.drop_first() == t);
}

/// Digits without a point are a whole number.
pub proof fn law_whole_numbers_are_read(w: Seq<char>)
    requires
        all_digits(w),
        w.len() > 0,
    ensures
        literal(w) == Some(Literal::Decimal { negative: false, digits: w, exponent: 0 }),
{
    assert(digit(w[0]));
    let lower = w.map_values(|c: char| ascii_lower(c));
    assert(lower[0] == w[0]);
    lemma_leading(w, Seq::empty());
    assert(w + Seq::<char>::empty() == w);
    assert(w.skip(w.len() as int).len() == 0);
    assert(w.take(w.len() as int) == w);
}

} // verus!
