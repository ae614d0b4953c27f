//! Numbers of the language: exact decimals with six fraction digits.
//!
//! The language's numbers are exact decimals, not floating point: a value
//! lies within about ±9.2·10¹², carries six fraction digits, and a numeral
//! with more fraction digits is cut to six (`1.23456789` reads as
//! `1.234567`).
//!
//! A number is held as a count of millionths in an `i64`.  Every operation
//! that would leave that range fails instead of wrapping.  Products and
//! quotients round toward zero to the nearest millionth; `%` takes the sign
//! of the divisor.
use vstd::prelude::*;
use vstd::arithmetic::div_mod::{lemma_fundamental_div_mod, lemma_fundamental_div_mod_converse};
use crate::text::string_of;

verus! {

/// Millionths in one unit.
pub const SCALE: i64 = 1000000;

/// Number of fraction digits a number carries.
pub const FRACTION_DIGITS: u64 = 6;

#[derive(Clone, Copy, Debug, PartialEq, Eq, Structural)]
pub struct Num {
    /// The value times `SCALE`.
    pub units: i64,
}

/// Whether an integer fits in an `i64`.
pub open spec fn fits(x: int) -> bool {
    i64::MIN <= x <= i64::MAX
}

/// Division that rounds toward zero, for a positive divisor.
pub open spec fn div_trunc(x: int, d: int) -> int
    recommends
        d > 0,
{
    if x >= 0 {
        x / d
    } else {
        -((-x) / d)
    }
}

/// Division that rounds toward zero, for a nonzero divisor.
pub open spec fn quot(x: int, d: int) -> int
    recommends
        d != 0,
{
    if d > 0 {
        div_trunc(x, d)
    } else {
        div_trunc(-x, -d)
    }
}

/// The remainder that takes the sign of the divisor: `x - floor(x / d) * d`.
pub open spec fn floor_mod(x: int, d: int) -> int
    recommends
        d != 0,
{
    if d > 0 {
        x % d
    } else {
        -((-x) % (-d))
    }
}

/// The units of `a * b`, rounded toward zero.
pub open spec fn mul_units(a: int, b: int) -> int {
    div_trunc(a * b, SCALE as int)
}

/// The units of `a / b`, rounded toward zero.
pub open spec fn div_units(a: int, b: int) -> int
    recommends
        b != 0,
{
    quot(a * SCALE, b)
}

proof fn lemma_div_trunc_bound(x: int, d: int)
    requires
        d > 0,
    ensures
        -(if x >= 0 { x } else { -x }) <= div_trunc(x, d) <= (if x >= 0 { x } else { -x }),
{
    if x >= 0 {
        assert(x / d <= x) by (nonlinear_arith)
            requires x >= 0, d > 0;
        assert(x / d >= 0) by (nonlinear_arith)
            requires x >= 0, d > 0;
    } else {
        assert((-x) / d <= -x) by (nonlinear_arith)
            requires -x > 0, d > 0;
        assert((-x) / d >= 0) by (nonlinear_arith)
            requires -x > 0, d > 0;
    }
}

/// Magnitude of an `i128` whose negation fits.
fn magnitude(x: i128) -> (r: u128)
    requires
        x > i128::MIN,
    ensures
        r as int == if x >= 0 { x as int } else { -(x as int) },
{
    if x >= 0 {
        x as u128
    } else {
        (-x) as u128
    }
}

/// `x / d` rounded toward zero, for a positive `d`.
fn div_trunc_i128(x: i128, d: i128) -> (r: i128)
    requires
        d > 0,
        x > i128::MIN,
    ensures
        r as int == div_trunc(x as int, d as int),
{
    let m = magnitude(x);
    let q = m / (d as u128);
    proof {
        lemma_div_trunc_bound(x as int, d as int);
    }
    if x >= 0 {
        q as i128
    } else {
        -(q as i128)
    }
}

/// `x % d` for a positive `d`, the result in `0..d`.
fn floor_mod_pos(x: i128, d: i128) -> (r: i128)
    requires
        d > 0,
        x > i128::MIN,
    ensures
        r as int == (x as int) % (d as int),
        0 <= r < d,
{
    let m = magnitude(x);
    let du = d as u128;
    let rm = m % du;
    proof {
        lemma_fundamental_div_mod(m as int, du as int);
    }
    if x >= 0 {
        rm as i128
    } else if rm == 0 {
        proof {
            let q = (m as int) / (du as int);
            assert(x as int == (-q) * (d as int) + 0) by (nonlinear_arith)
                requires
                    x as int == -(m as int),
                    m as int == (du as int) * q + 0,
                    du as int == d as int,
            ;
            lemma_fundamental_div_mod_converse(x as int, d as int, -q, 0);
        }
        0
    } else {
        proof {
            let q = (m as int) / (du as int);
            let r0 = (m as int) % (du as int);
            assert(x as int == (-q - 1) * (d as int) + (d as int - r0)) by (nonlinear_arith)
                requires
                    x as int == -(m as int),
                    m as int == (du as int) * q + r0,
                    du as int == d as int,
            ;
            lemma_fundamental_div_mod_converse(x as int, d as int, -q - 1, d as int - r0);
        }
        d - (rm as i128)
    }
}

impl Num {
    pub open spec fn value(self) -> int {
        self.units as int
    }

    /// The number with integer value `n`, if it is in range.
    pub fn from_int(n: i64) -> (r: Option<Num>)
        ensures
            r == (if fits(n * SCALE) {
                Some(Num { units: (n * SCALE) as i64 })
            } else {
                None::<Num>
            }),
    {
        let p: i128 = (n as i128) * (SCALE as i128);
        if p >= i64::MIN as i128 && p <= i64::MAX as i128 {
            Some(Num { units: p as i64 })
        } else {
            None
        }
    }

    pub fn zero() -> (r: Num)
        ensures
            r.units == 0,
    {
        Num { units: 0 }
    }

    pub fn one() -> (r: Num)
        ensures
            r.units == SCALE,
    {
        Num { units: SCALE }
    }

    pub fn add(self, o: Num) -> (r: Option<Num>)
        ensures
            r == (if fits(self.units + o.units) {
                Some(Num { units: (self.units + o.units) as i64 })
            } else {
                None::<Num>
            }),
    {
        let s: i128 = (self.units as i128) + (o.units as i128);
        if s >= i64::MIN as i128 && s <= i64::MAX as i128 {
            Some(Num { units: s as i64 })
        } else {
            None
        }
    }

    pub fn sub(self, o: Num) -> (r: Option<Num>)
        ensures
            r == (if fits(self.units - o.units) {
                Some(Num { units: (self.units - o.units) as i64 })
            } else {
                None::<Num>
            }),
    {
        let s: i128 = (self.units as i128) - (o.units as i128);
        if s >= i64::MIN as i128 && s <= i64::MAX as i128 {
            Some(Num { units: s as i64 })
        } else {
            None
        }
    }

    pub fn neg(self) -> (r: Option<Num>)
        ensures
            r == (if fits(-self.units) {
                Some(Num { units: (-self.units) as i64 })
            } else {
                None::<Num>
            }),
    {
        if self.units == i64::MIN {
            None
        } else {
            Some(Num { units: -self.units })
        }
    }

    pub fn mul(self, o: Num) -> (r: Option<Num>)
        ensures
            r == (if fits(mul_units(self.units as int, o.units as int)) {
                Some(Num { units: mul_units(self.units as int, o.units as int) as i64 })
            } else {
                None::<Num>
            }),
    {
        let a = self.units as i128;
        let b = o.units as i128;
        assert(-0x4000_0000_0000_0000_0000_0000_0000_0000 <= a * b
            <= 0x4000_0000_0000_0000_0000_0000_0000_0000) by (nonlinear_arith)
            requires
                -0x8000_0000_0000_0000 <= a <= 0x7fff_ffff_ffff_ffff,
                -0x8000_0000_0000_0000 <= b <= 0x7fff_ffff_ffff_ffff,
        ;
        let p: i128 = a * b;
        let q = div_trunc_i128(p, SCALE as i128);
        if q >= i64::MIN as i128 && q <= i64::MAX as i128 {
            Some(Num { units: q as i64 })
        } else {
            None
        }
    }

    /// Quotient; `None` when dividing by zero or leaving the range.
    pub fn div(self, o: Num) -> (r: Option<Num>)
        ensures
            r == (if o.units != 0 && fits(div_units(self.units as int, o.units as int)) {
                Some(Num { units: div_units(self.units as int, o.units as int) as i64 })
            } else {
                None::<Num>
            }),
    {
        if o.units == 0 {
            return None;
        }
        let x = self.units as i128;
        assert(-0x8000_0000_0000_0000_0000_0000 <= x * 1000000 <= 0x8000_0000_0000_0000_0000_0000)
            by (nonlinear_arith)
            requires
                -0x8000_0000_0000_0000 <= x <= 0x7fff_ffff_ffff_ffff,
        ;
        let a: i128 = x * (SCALE as i128);
        let b = o.units as i128;
        let q = if b > 0 {
            div_trunc_i128(a, b)
        } else {
            div_trunc_i128(-a, -b)
        };
        if q >= i64::MIN as i128 && q <= i64::MAX as i128 {
            Some(Num { units: q as i64 })
        } else {
            None
        }
    }

    /// Remainder with the sign of the divisor; `None` for a zero divisor.
    pub fn modulo(self, o: Num) -> (r: Option<Num>)
        ensures
            r == (if o.units != 0 {
                Some(Num { units: floor_mod(self.units as int, o.units as int) as i64 })
            } else {
                None::<Num>
            }),
            o.units != 0 ==> fits(floor_mod(self.units as int, o.units as int)),
    {
        if o.units == 0 {
            return None;
        }
        let a = self.units as i128;
        let b = o.units as i128;
        if b > 0 {
            let m = floor_mod_pos(a, b);
            Some(Num { units: m as i64 })
        } else {
            let m = floor_mod_pos(-a, -b);
            Some(Num { units: (-m) as i64 })
        }
    }

    pub fn lt(self, o: Num) -> (r: bool)
        ensures
            r == (self.units < o.units),
    {
        self.units < o.units
    }

    pub fn le(self, o: Num) -> (r: bool)
        ensures
            r == (self.units <= o.units),
    {
        self.units <= o.units
    }
}

/// The decimal digit that `c` stands for, if it is one.
pub open spec fn is_digit(c: char) -> bool {
    '0' <= c <= '9'
}

pub open spec fn digit_value(c: char) -> int {
    c as int - '0' as int
}

/// The character of a decimal digit `d` (in `0..10`).
pub open spec fn digit_char(d: int) -> char {
    if d <= 0 {
        '0'
    } else if d == 1 {
        '1'
    } else if d == 2 {
        '2'
    } else if d == 3 {
        '3'
    } else if d == 4 {
        '4'
    } else if d == 5 {
        '5'
    } else if d == 6 {
        '6'
    } else if d == 7 {
        '7'
    } else if d == 8 {
        '8'
    } else {
        '9'
    }
}

/// Decimal digits of `n`, most significant first, without leading zeros.
pub open spec fn nat_digits(n: nat) -> Seq<char>
    decreases n,
{
    if n < 10 {
        seq![digit_char(n as int)]
    } else {
        nat_digits(n / 10).push(digit_char((n % 10) as int))
    }
}

/// The last `k` decimal digits of `f`, leading zeros kept.
pub open spec fn fixed_digits(f: nat, k: nat) -> Seq<char>
    decreases k,
{
    if k == 0 {
        seq![]
    } else {
        fixed_digits(f / 10, (k - 1) as nat).push(digit_char((f % 10) as int))
    }
}

/// `s` without its trailing zeros.
pub open spec fn trim_zeros(s: Seq<char>) -> Seq<char>
    decreases s.len(),
{
    if s.len() > 0 && s.last() == '0' {
        trim_zeros(s.drop_last())
    } else {
        s
    }
}

pub open spec fn abs(x: int) -> nat {
    if x >= 0 {
        x as nat
    } else {
        (-x) as nat
    }
}

/// The display form of a number: a sign for negatives, the integer part,
/// and the fraction digits without trailing zeros, if any are left.
pub open spec fn num_text(n: Num) -> Seq<char> {
    let m = abs(n.units as int);
    let ip = m / (SCALE as nat);
    let fp = m % (SCALE as nat);
    let sign = if n.units < 0 { seq!['-'] } else { Seq::<char>::empty() };
    let frac = if fp == 0 {
        Seq::<char>::empty()
    } else {
        seq!['.'] + trim_zeros(fixed_digits(fp, FRACTION_DIGITS as nat))
    };
    sign + nat_digits(ip) + frac
}

proof fn lemma_nat_digits_nonempty(n: nat)
    ensures
        nat_digits(n).len() > 0,
    decreases n,
{
    if n >= 10 {
        lemma_nat_digits_nonempty(n / 10);
    }
}

pub proof fn lemma_num_text_nonempty(n: Num)
    ensures
        num_text(n).len() > 0,
{
    let m = abs(n.units as int);
    lemma_nat_digits_nonempty(m / (SCALE as nat));
}

/// Whether every character of `s` is a decimal digit.
pub open spec fn all_digits(s: Seq<char>) -> bool {
    forall|i: int| 0 <= i < s.len() ==> is_digit(#[trigger] s[i])
}

/// The value of a string of decimal digits.
pub open spec fn digits_value(s: Seq<char>) -> nat
    decreases s.len(),
{
    if s.len() == 0 {
        0
    } else {
        digits_value(s.drop_last()) * 10 + digit_value(s.last()) as nat
    }
}

/// The first `FRACTION_DIGITS` characters of a fraction, padded with zeros.
pub open spec fn fraction_field(f: Seq<char>) -> Seq<char> {
    if f.len() >= FRACTION_DIGITS {
        f.take(FRACTION_DIGITS as int)
    } else {
        f + Seq::new((FRACTION_DIGITS - f.len()) as nat, |i: int| '0')
    }
}

/// Position of the first `.` in `s`, or its length.
pub open spec fn dot_pos(s: Seq<char>) -> int
    decreases s.len(),
{
    if s.len() == 0 {
        0
    } else if s[0] == '.' {
        0
    } else {
        1 + dot_pos(s.drop_first())
    }
}

/// The units of a numeral: digits, then optionally a `.` and more digits,
/// with at least one digit; `None` when it is not one or is out of range.
pub open spec fn numeral_units(s: Seq<char>) -> Option<int> {
    let k = dot_pos(s);
    let ip = s.take(k);
    let fp = if k < s.len() { s.skip(k + 1) } else { Seq::<char>::empty() };
    let v = digits_value(ip) * SCALE + digits_value(fraction_field(fp));
    if all_digits(ip) && all_digits(fp) && ip.len() + fp.len() > 0 && fits(v) {
        Some(v)
    } else {
        None
    }
}

fn digit_to_char(d: u64) -> (c: char)
    requires
        d < 10,
    ensures
        c == digit_char(d as int),
        is_digit(c),
        digit_value(c) == d,
{
    if d == 0 {
        '0'
    } else if d == 1 {
        '1'
    } else if d == 2 {
        '2'
    } else if d == 3 {
        '3'
    } else if d == 4 {
        '4'
    } else if d == 5 {
        '5'
    } else if d == 6 {
        '6'
    } else if d == 7 {
        '7'
    } else if d == 8 {
        '8'
    } else {
        '9'
    }
}

fn push_nat_digits(n: u64, out: &mut Vec<char>)
    ensures
        final(out)@ == old(out)@ + nat_digits(n as nat),
    decreases n,
{
    if n < 10 {
        out.push(digit_to_char(n));
    } else {
        push_nat_digits(n / 10, out);
        out.push(digit_to_char(n % 10));
    }
}

fn push_fixed_digits(f: u64, k: u64, out: &mut Vec<char>)
    ensures
        final(out)@ == old(out)@ + fixed_digits(f as nat, k as nat),
    decreases k,
{
    if k > 0 {
        push_fixed_digits(f / 10, k - 1, out);
        out.push(digit_to_char(f % 10));
    }
}

proof fn lemma_trim_prefix(pre: Seq<char>, s: Seq<char>)
    requires
        pre.len() > 0,
        pre.last() != '0',
    ensures
        trim_zeros(pre + s).len() >= pre.len(),
        trim_zeros(pre + s) == pre + trim_zeros(s),
    decreases s.len(),
{
    if s.len() > 0 && s.last() == '0' {
        assert((pre + s).drop_last() == pre + s.drop_last());
        lemma_trim_prefix(pre, s.drop_last());
    } else {
        if s.len() == 0 {
            assert(pre + s == pre);
        }
    }
}

/// Removes the trailing zeros of `out` after position `start`.
fn trim_trailing_zeros(out: &mut Vec<char>, Ghost(start): Ghost<int>)
    requires
        0 < start <= old(out)@.len(),
        old(out)@[start - 1] != '0',
    ensures
        final(out)@ == old(out)@.take(start) + trim_zeros(old(out)@.skip(start)),
{
    let ghost pre = out@.take(start);
    proof {
        assert(out@ == pre + out@.skip(start));
        lemma_trim_prefix(pre, out@.skip(start));
    }
    while out.len() > 0 && out[out.len() - 1] == '0'
        invariant
            pre.len() == start,
            pre.len() > 0,
            pre.last() != '0',
            out@.len() >= start,
            out@.take(start) == pre,
            trim_zeros(out@) == pre + trim_zeros(old(out)@.skip(start)),
        decreases out.len(),
    {
        proof {
            assert(out@.len() > start) by {
                if out@.len() == start {
                    assert(out@ == pre);
                }
            }
            assert(out@.drop_last().take(start) == pre);
        }
        out.pop();
    }
    proof {
        assert(out@ == pre + out@.skip(start));
        lemma_trim_prefix(pre, out@.skip(start));
        assert(trim_zeros(out@) == out@);
        assert(out@.skip(start) == trim_zeros(old(out)@.skip(start)));
    }
}

pub open spec fn pow10(t: nat) -> nat
    decreases t,
{
    if t == 0 {
        1
    } else {
        10 * pow10((t - 1) as nat)
    }
}

proof fn lemma_digit_char(d: int)
    requires
        0 <= d < 10,
    ensures
        is_digit(digit_char(d)),
        digit_value(digit_char(d)) == d,
{
}

proof fn lemma_nat_digits(n: nat)
    ensures
        all_digits(nat_digits(n)),
        digits_value(nat_digits(n)) == n,
        nat_digits(n).len() > 0,
    decreases n,
{
    if n < 10 {
        lemma_digit_char(n as int);
        assert(nat_digits(n).drop_last() =~= Seq::<char>::empty());
        assert(digits_value(Seq::<char>::empty()) == 0);
        assert(nat_digits(n).last() == digit_char(n as int));
    } else {
        lemma_nat_digits(n / 10);
        lemma_digit_char((n % 10) as int);
        let t = nat_digits(n / 10);
        assert(nat_digits(n).drop_last() == t);
        assert(nat_digits(n).last() == digit_char((n % 10) as int));
        lemma_fundamental_div_mod(n as int, 10);
        assert(digits_value(nat_digits(n)) == digits_value(t) * 10 + (n % 10));
        assert forall|i: int| 0 <= i < nat_digits(n).len() implies is_digit(#[trigger] nat_digits(n)[i]) by {
            if i < t.len() {
                assert(nat_digits(n)[i] == t[i]);
            }
        }
    }
}

proof fn lemma_fixed_digits(f: nat, k: nat)
    requires
        f < pow10(k),
    ensures
        fixed_digits(f, k).len() == k,
        all_digits(fixed_digits(f, k)),
        digits_value(fixed_digits(f, k)) == f,
    decreases k,
{
    if k == 0 {
        assert(f == 0);
    } else {
        let p = pow10((k - 1) as nat);
        assert(f / 10 < p) by (nonlinear_arith)
            requires f < 10 * p, p > 0;
        assert(p > 0) by {
            lemma_pow10_positive((k - 1) as nat);
        }
        lemma_fixed_digits(f / 10, (k - 1) as nat);
        lemma_digit_char((f % 10) as int);
        let t = fixed_digits(f / 10, (k - 1) as nat);
        assert(fixed_digits(f, k).drop_last() == t);
        assert forall|i: int| 0 <= i < fixed_digits(f, k).len() implies is_digit(#[trigger] fixed_digits(f, k)[i]) by {
            if i < t.len() {
                assert(fixed_digits(f, k)[i] == t[i]);
            }
        }
    }
}

proof fn lemma_pow10_positive(k: nat)
    ensures
        pow10(k) > 0,
    decreases k,
{
    if k > 0 {
        lemma_pow10_positive((k - 1) as nat);
    }
}

/// `trim_zeros(s)` is a prefix of `s`, and what it drops is zeros.
proof fn lemma_trim_zeros(s: Seq<char>)
    ensures
        trim_zeros(s).len() <= s.len(),
        trim_zeros(s) == s.take(trim_zeros(s).len() as int),
        forall|j: int| trim_zeros(s).len() <= j < s.len() ==> s[j] == '0',
    decreases s.len(),
{
    if s.len() > 0 && s.last() == '0' {
        lemma_trim_zeros(s.drop_last());
        let t = trim_zeros(s.drop_last());
        assert(s.drop_last().take(t.len() as int) == s.take(t.len() as int));
        assert forall|j: int| t.len() <= j < s.len() implies s[j] == '0' by {
            if j < s.len() - 1 {
                assert(s[j] == s.drop_last()[j]);
            }
        }
    } else {
        assert(s.take(s.len() as int) == s);
    }
}

proof fn lemma_zeros_value(n: nat)
    ensures
        digits_value(Seq::new(n, |i: int| '0')) == 0,
    decreases n,
{
    if n > 0 {
        lemma_zeros_value((n - 1) as nat);
        assert(Seq::new(n, |i: int| '0').drop_last() == Seq::new((n - 1) as nat, |i: int| '0'));
    }
}

/// Reading back the display form of a number gives the number: a
/// nonnegative one reads back directly, and a negative one displays as `-`
/// before the display form of its magnitude.
pub proof fn lemma_text_round_trip(n: Num)
    ensures
        n.units >= 0 ==> numeral_units(num_text(n)) == Some(n.units as int),
        n.units < 0 && n.units > i64::MIN ==> num_text(n) == seq!['-'] + num_text(Num { units: (-n.units) as i64 }),
{
    let m = abs(n.units as int);
    let ip = m / (SCALE as nat);
    let fp = m % (SCALE as nat);
    if n.units < 0 && n.units > i64::MIN {
        let p = Num { units: (-n.units) as i64 };
        assert(abs(p.units as int) == m);
        assert(num_text(n) =~= seq!['-'] + num_text(p));
    }
    if n.units >= 0 {
        let d = nat_digits(ip);
        lemma_nat_digits(ip);
        reveal_with_fuel(pow10, 7);
        let t = num_text(n);
        assert forall|j: int| 0 <= j < d.len() implies d[j] != '.' by {
            assert(is_digit(d[j]));
        }
        if fp == 0 {
            assert(t =~= d);
            lemma_dot_pos(t, d.len() as int);
            assert(t.take(d.len() as int) =~= d);
            let ff = fraction_field(Seq::<char>::empty());
            assert(ff =~= Seq::new(6, |i: int| '0'));
            lemma_zeros_value(6);
            assert(all_digits(Seq::<char>::empty()));
        } else {
            let big = fixed_digits(fp, FRACTION_DIGITS as nat);
            lemma_fixed_digits(fp, FRACTION_DIGITS as nat);
            let tr = trim_zeros(big);
            lemma_trim_zeros(big);
            assert(t =~= d + seq!['.'] + tr);
            assert forall|j: int| 0 <= j < d.len() implies t[j] != '.' by {
                assert(t[j] == d[j]);
            }
            assert(t[d.len() as int] == '.');
            lemma_dot_pos(t, d.len() as int);
            assert(t.take(d.len() as int) =~= d);
            assert(t.skip(d.len() as int + 1) =~= tr);
            assert forall|j: int| 0 <= j < tr.len() implies is_digit(#[trigger] tr[j]) by {
                assert(tr[j] == big[j]);
            }
            if tr.len() == 6 {
                assert(tr =~= big);
                assert(fraction_field(tr) =~= big);
            } else {
                assert(fraction_field(tr) =~= big);
            }
        }
        assert(ip * SCALE + fp == m) by {
            lemma_fundamental_div_mod(m as int, SCALE as int);
        }
    }
}

proof fn lemma_dot_pos(s: Seq<char>, k: int)
    requires
        0 <= k <= s.len(),
        forall|j: int| 0 <= j < k ==> s[j] != '.',
        k == s.len() || s[k] == '.',
    ensures
        dot_pos(s) == k,
    decreases k,
{
    if k > 0 {
        let t = s.drop_first();
        assert forall|j: int| 0 <= j < k - 1 implies t[j] != '.' by {
            assert(t[j] == s[j + 1]);
        }
        if k < s.len() {
            assert(t[k - 1] == s[k]);
        }
        lemma_dot_pos(t, k - 1);
    }
}

proof fn lemma_digits_prefix_le(s: Seq<char>, i: int)
    requires
        0 <= i <= s.len(),
    ensures
        digits_value(s.take(i)) <= digits_value(s),
    decreases s.len() - i,
{
    if i == s.len() {
        assert(s.take(i) == s);
    } else {
        lemma_digits_prefix_le(s, i + 1);
        assert(s.take(i + 1).drop_last() == s.take(i));
    }
}

fn digit_of(c: char) -> (r: u64)
    requires
        is_digit(c),
    ensures
        r as int == digit_value(c),
        r < 10,
{
    (c as u32 - '0' as u32) as u64
}

fn char_is_digit(c: char) -> (r: bool)
    ensures
        r == is_digit(c),
{
    '0' <= c && c <= '9'
}

impl Num {
    /// Reads a numeral (see `numeral_units`).
    pub fn parse(s: &[char]) -> (r: Option<Num>)
        ensures
            r == (match numeral_units(s@) {
                Some(u) => Some(Num { units: u as i64 }),
                None => None::<Num>,
            }),
    {
        let n = s.len();
        let mut k: usize = 0;
        while k < n && s[k] != '.'
            invariant
                k <= n,
                n == s@.len(),
                forall|j: int| 0 <= j < k ==> s@[j] != '.',
            decreases n - k,
        {
            k = k + 1;
        }
        proof {
            lemma_dot_pos(s@, k as int);
        }
        let ghost ip = s@.take(k as int);
        let ghost fp = if k < n { s@.skip(k + 1) } else { Seq::<char>::empty() };
        let ghost v = digits_value(ip) * SCALE + digits_value(fraction_field(fp));
        let mut acc: u64 = 0;
        let mut i: usize = 0;
        while i < k
            invariant
                i <= k <= n,
                n == s@.len(),
                ip == s@.take(k as int),
                dot_pos(s@) == k,
                fp == (if k < n { s@.skip(k + 1) } else { Seq::<char>::empty() }),
                v == digits_value(ip) * SCALE + digits_value(fraction_field(fp)),
                all_digits(s@.take(i as int)),
                acc as int == digits_value(s@.take(i as int)),
                acc < 10_000_000_000_000,
            decreases k - i,
        {
            if !char_is_digit(s[i]) {
                proof {
                    assert(ip[i as int] == s@[i as int]);
                    assert(!is_digit(ip[i as int]));
                    assert(!all_digits(ip));
                    assert(dot_pos(s@) == k);
                    assert(numeral_units(s@) is None);
                }
                return None;
            }
            let d = digit_of(s[i]);
            proof {
                assert(s@.take(i + 1).drop_last() == s@.take(i as int));
                assert(s@.take(i + 1).last() == s@[i as int]);
                assert forall|j: int| 0 <= j < i + 1 implies is_digit(#[trigger] s@.take(i + 1)[j]) by {
                    if j < i {
                        assert(s@.take(i + 1)[j] == s@.take(i as int)[j]);
                    }
                }
            }
            acc = acc * 10 + d;
            if acc >= 10_000_000_000_000 {
                proof {
                    assert(acc as int == digits_value(s@.take(i + 1)));
                    if all_digits(ip) {
                        assert(ip.take(i + 1) == s@.take(i + 1));
                        lemma_digits_prefix_le(ip, i + 1);
                        let dv = digits_value(ip);
                        let fv = digits_value(fraction_field(fp));
                        assert(dv * SCALE + fv >= 10_000_000_000_000 * 1_000_000) by (nonlinear_arith)
                            requires dv >= 10_000_000_000_000, fv >= 0;
                        assert(v >= 10_000_000_000_000 * 1_000_000);
                        assert(!fits(v));
                    }
                }
                return None;
            }
            i = i + 1;
        }
        assert(s@.take(k as int) == ip);
        let mut j: usize = if k < n { k + 1 } else { n };
        while j < n
            invariant
                k < j <= n || (k == n && j == n),
                n == s@.len(),
                k <= n,
                fp == (if k < n { s@.skip(k + 1) } else { Seq::<char>::empty() }),
                ip == s@.take(k as int),
                dot_pos(s@) == k,
                forall|t: int| k + 1 <= t < j ==> is_digit(#[trigger] s@[t]),
            decreases n + 1 - j,
        {
            if !char_is_digit(s[j]) {
                proof {
                    assert(fp[j - k - 1] == s@[j as int]);
                    assert(!is_digit(fp[j - k - 1]));
                    assert(!all_digits(fp));
                    assert(dot_pos(s@) == k);
                    assert(numeral_units(s@) is None);
                }
                return None;
            }
            j = j + 1;
        }
        proof {
            assert forall|t: int| 0 <= t < fp.len() implies is_digit(#[trigger] fp[t]) by {
                assert(fp[t] == s@[k + 1 + t]);
            }
        }
        if n == 0 || (k == 0 && n == 1) {
            return None;
        }
        let ghost ff = fraction_field(fp);
        let mut facc: u64 = 0;
        let mut t: usize = 0;
        while t < 6
            invariant
                t <= 6,
                n == s@.len(),
                k <= n,
                ff == fraction_field(fp),
                ff.len() == 6,
                fp == (if k < n { s@.skip(k + 1) } else { Seq::<char>::empty() }),
                facc as int == digits_value(ff.take(t as int)),
                facc < pow10(t as nat),
                forall|q: int| 0 <= q < fp.len() ==> is_digit(#[trigger] fp[q]),
            decreases 6 - t,
        {
            let d: u64 = if k < n && t < n - k - 1 {
                proof {
                    assert(fp[t as int] == s@[k + 1 + t]);
                    assert(ff[t as int] == fp[t as int]);
                }
                digit_of(s[k + 1 + t])
            } else {
                proof {
                    assert(ff[t as int] == '0');
                }
                0
            };
            proof {
                assert(ff.take(t + 1).drop_last() == ff.take(t as int));
                assert(ff.take(t + 1).last() == ff[t as int]);
            }
            proof {
                reveal_with_fuel(pow10, 7);
                assert(pow10(t as nat) <= 100_000);
                assert(facc * 10 + d < pow10(t as nat) * 10) by (nonlinear_arith)
                    requires facc < pow10(t as nat), d < 10;
            }
            facc = facc * 10 + d;
            t = t + 1;
        }
        assert(ff.take(6) == ff);
        proof {
            reveal_with_fuel(pow10, 7);
        }
        let total: u64 = acc * 1_000_000 + facc;
        if total > i64::MAX as u64 {
            return None;
        }
        Some(Num { units: total as i64 })
    }

    /// The display form, as characters.
    pub fn text(self) -> (r: Vec<char>)
        ensures
            r@ == num_text(self),
    {
        let mut out: Vec<char> = Vec::new();
        if self.units < 0 {
            out.push('-');
        }
        let m: u64 = if self.units >= 0 {
            self.units as u64
        } else {
            ((-(self.units as i128)) as u64)
        };
        let ip = m / (SCALE as u64);
        let fp = m % (SCALE as u64);
        push_nat_digits(ip, &mut out);
        let ghost before = out@;
        if fp != 0 {
            out.push('.');
            let ghost with_dot = out@;
            push_fixed_digits(fp, FRACTION_DIGITS, &mut out);
            proof {
                assert(out@.skip(with_dot.len() as int) == fixed_digits(fp as nat, FRACTION_DIGITS as nat));
                assert(out@.take(with_dot.len() as int) == with_dot);
            }
            trim_trailing_zeros(&mut out, Ghost(with_dot.len() as int));
        }
        proof {
            let sign = if self.units < 0 { seq!['-'] } else { Seq::<char>::empty() };
            assert(abs(self.units as int) == m as nat);
            assert(before == sign + nat_digits(ip as nat));
        }
        out
    }

    /// The display form.
    pub fn display(self) -> (r: String)
        ensures
            r@ == num_text(self),
    {
        let t = self.text();
        string_of(t.as_slice())
    }
}

} // verus!
