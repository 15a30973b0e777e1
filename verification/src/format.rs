//! Sizes, dates and permissions as the file manager shows them.

use crate::strings::Strings;
use crate::text::{
    decimal, number, numeral, parse_number, push_numeral, replaced, to_chars, trim, trimmed,
};
use vstd::prelude::*;

verus! {

/// `n / d` rounded to the nearest whole number, halves to the even one.
pub open spec fn half_even(n: nat, d: nat) -> nat {
    let q = n / d;
    let r = n % d;
    if 2 * r < d || (2 * r == d && q % 2 == 0) {
        q
    } else {
        q + 1
    }
}

/// The distance between neighbouring double-precision numbers around a whole
/// number: the smallest power of two that divides it to below 2^53.
pub open spec fn ulp(n: nat) -> nat
    decreases n,
{
    if n < 0x20_0000_0000_0000 {
        1
    } else {
        2 * ulp(n / 2)
    }
}

/// A whole number as a double-precision number.
pub open spec fn as_double(n: nat) -> nat {
    half_even(n, ulp(n)) * ulp(n)
}

/// How many times a size is divided by 1024 to be shown.
pub open spec fn unit_of(v: nat) -> int {
    if v < 0x400 {
        0
    } else if v < 0x10_0000 {
        1
    } else if v < 0x4000_0000 {
        2
    } else if v < 0x100_0000_0000 {
        3
    } else {
        4
    }
}

/// 1024 to the power `n`, for a unit.
pub open spec fn scale(n: int) -> nat {
    if n <= 0 {
        1
    } else if n == 1 {
        0x400
    } else if n == 2 {
        0x10_0000
    } else if n == 3 {
        0x4000_0000
    } else {
        0x100_0000_0000
    }
}

/// A number of tenths, with a point before the last digit.
pub open spec fn tenths_text(tenths: nat) -> Seq<char> {
    decimal(tenths / 10) + seq!['.'] + decimal(tenths % 10)
}

/// The number of a size: whole bytes, or one decimal in its unit.
pub open spec fn size_number(bytes: nat) -> Seq<char> {
    let v = as_double(bytes);
    let unit = unit_of(v);
    if unit == 0 {
        decimal(bytes)
    } else {
        tenths_text(half_even(v * 10, scale(unit)))
    }
}

/// A size as it is shown.
pub open spec fn size_text(bytes: nat, t: Strings) -> Seq<char> {
    let n = size_number(bytes);
    (if t.decimal_comma {
        replaced(n, '.', ',')
    } else {
        n
    }) + seq![' '] + t.unit(unit_of(as_double(bytes)))
}

fn rounded(n: u128, d: u128) -> (r: u128)
    requires
        0 < d,
        n <= 0x1_0000_0000_0000_0000 * 10,
        d <= 0x1_0000_0000_0000_0000,
    ensures
        r == half_even(n as nat, d as nat),
{
    let q = n / d;
    let r = n % d;
    proof {
        assert(q <= n) by (nonlinear_arith)
            requires
                q == n / d,
                d > 0,
                n >= 0,
        ;
        assert(0 <= r < d) by (nonlinear_arith)
            requires
                r == n % d,
                d > 0,
        ;
    }
    if 2 * r < d || (2 * r == d && q % 2 == 0) {
        q
    } else {
        q + 1
    }
}

proof fn lemma_ulp(n: nat)
    requires
        n <= 0xffff_ffff_ffff_ffff,
    ensures
        1 <= ulp(n) <= 0x800,
    decreases n,
{
    reveal_with_fuel(ulp, 13);
}

fn ulp_of(n: u64) -> (r: u64)
    ensures
        r == ulp(n as nat),
    decreases n,
{
    proof {
        lemma_ulp(n as nat);
        lemma_ulp((n / 2) as nat);
    }
    if n < 0x20_0000_0000_0000 {
        1
    } else {
        2 * ulp_of(n / 2)
    }
}

/// Rounding to a multiple gives at most one more than the number divided.
proof fn lemma_half_even(n: nat, d: nat)
    requires
        d > 0,
    ensures
        half_even(n, d) * d <= n + d,
{
    let q = n / d;
    assert((q + 1) * d <= n + d) by (nonlinear_arith)
        requires
            q == n / d,
            d > 0,
    ;
    assert(q * d <= (q + 1) * d) by (nonlinear_arith)
        requires
            d > 0,
            q >= 0,
    ;
}

fn double_of(bytes: u64) -> (r: u128)
    ensures
        r == as_double(bytes as nat),
        r <= 0x1_0000_0000_0000_0000 + 0x800,
{
    let u: u64 = ulp_of(bytes);
    proof {
        lemma_ulp(bytes as nat);
        lemma_half_even(bytes as nat, u as nat);
    }
    let q = rounded(bytes as u128, u as u128);
    q * u as u128
}

/// "12,3 Mo" / "12.3 MB".
pub fn format_size(bytes: u64, t: &Strings) -> (r: String)
    ensures
        r@ == size_text(bytes as nat, *t),
{
    let v: u128 = double_of(bytes);
    let mut text = String::new();
    let (unit, div): (&'static str, u128) = if v < 0x400 {
        (t.unit_b, 1)
    } else if v < 0x10_0000 {
        (t.unit_kb, 0x400)
    } else if v < 0x4000_0000 {
        (t.unit_mb, 0x10_0000)
    } else if v < 0x100_0000_0000 {
        (t.unit_gb, 0x4000_0000)
    } else {
        (t.unit_tb, 0x100_0000_0000)
    };
    if v < 0x400 {
        push_numeral(&mut text, bytes, 10);
        assert(text@ =~= size_number(bytes as nat));
    } else {
        proof {
            lemma_double_bound(bytes as nat);
        }
        let tenths: u128 = rounded(v * 10, div);
        proof {
            lemma_tenths(v as nat, div as nat);
        }
        let tenths: u64 = tenths as u64;
        push_numeral(&mut text, tenths / 10, 10);
        text.push('.');
        push_numeral(&mut text, tenths % 10, 10);
        assert(text@ =~= size_number(bytes as nat));
    }
    let mut r = if t.decimal_comma {
        crate::text::from_chars(&crate::text::replace_char(&to_chars(text.as_str()), '.', ','))
    } else {
        text
    };
    r.push(' ');
    r.push_str(unit);
    assert(r@ =~= size_text(bytes as nat, *t));
    r
}

/// A 64-bit number, rounded, does not go past 2^64.
proof fn lemma_double_bound(n: nat)
    requires
        n <= 0xffff_ffff_ffff_ffff,
    ensures
        as_double(n) <= 0x1_0000_0000_0000_0000,
{
    lemma_ulp(n);
    let u = ulp(n);
    lemma_ulp_divides(n);
    let q = n / u;
    let m = 0x1_0000_0000_0000_0000nat / u;
    assert(half_even(n, u) <= q + 1);
    assert(m * u == 0x1_0000_0000_0000_0000);
    assert(q < m) by (nonlinear_arith)
        requires
            q == n / u,
            m * u == 0x1_0000_0000_0000_0000,
            n <= 0xffff_ffff_ffff_ffff,
            u > 0,
    ;
    assert(half_even(n, u) * u <= m * u) by (nonlinear_arith)
        requires
            half_even(n, u) <= q + 1,
            q < m,
            u > 0,
    ;
}

proof fn lemma_ulp_divides(n: nat)
    requires
        n <= 0xffff_ffff_ffff_ffff,
    ensures
        (0x1_0000_0000_0000_0000nat / ulp(n)) * ulp(n) == 0x1_0000_0000_0000_0000,
{
    lemma_ulp_is(n);
    let u = ulp(n);
    assert(u == 1 || u == 2 || u == 4 || u == 8 || u == 16 || u == 32 || u == 64 || u == 128 || u
        == 256 || u == 512 || u == 1024 || u == 2048);
    assert(0x1_0000_0000_0000_0000nat / 1 * 1 == 0x1_0000_0000_0000_0000);
    assert(0x1_0000_0000_0000_0000nat / 2 * 2 == 0x1_0000_0000_0000_0000);
    assert(0x1_0000_0000_0000_0000nat / 4 * 4 == 0x1_0000_0000_0000_0000);
    assert(0x1_0000_0000_0000_0000nat / 8 * 8 == 0x1_0000_0000_0000_0000);
    assert(0x1_0000_0000_0000_0000nat / 16 * 16 == 0x1_0000_0000_0000_0000);
    assert(0x1_0000_0000_0000_0000nat / 32 * 32 == 0x1_0000_0000_0000_0000);
    assert(0x1_0000_0000_0000_0000nat / 64 * 64 == 0x1_0000_0000_0000_0000);
    assert(0x1_0000_0000_0000_0000nat / 128 * 128 == 0x1_0000_0000_0000_0000);
    assert(0x1_0000_0000_0000_0000nat / 256 * 256 == 0x1_0000_0000_0000_0000);
    assert(0x1_0000_0000_0000_0000nat / 512 * 512 == 0x1_0000_0000_0000_0000);
    assert(0x1_0000_0000_0000_0000nat / 1024 * 1024 == 0x1_0000_0000_0000_0000);
    assert(0x1_0000_0000_0000_0000nat / 2048 * 2048 == 0x1_0000_0000_0000_0000);
}

proof fn lemma_ulp_is(n: nat)
    requires
        n <= 0xffff_ffff_ffff_ffff,
    ensures
        ulp(n) == 1 || ulp(n) == 2 || ulp(n) == 4 || ulp(n) == 8 || ulp(n) == 16 || ulp(n) == 32
            || ulp(n) == 64 || ulp(n) == 128 || ulp(n) == 256 || ulp(n) == 512 || ulp(n) == 1024
            || ulp(n) == 2048,
{
    reveal_with_fuel(ulp, 13);
}

/// The tenths of a size fit in 64 bits.
proof fn lemma_tenths(v: nat, d: nat)
    requires
        v <= 0x1_0000_0000_0000_0000,
        d == scale(unit_of(v)),
        v >= 0x400,
    ensures
        half_even(v * 10, d) <= 0xffff_ffff_ffff_ffff,
{
    let q = v * 10 / d;
    assert(d >= 0x400);
    assert(q <= v * 10 / 0x400) by (nonlinear_arith)
        requires
            q == v * 10 / d,
            d >= 0x400,
            v >= 0,
    ;
}

/// One of the letters of a mode, where its bit is set.
pub open spec fn letter(mode: u32, bit: u32, c: char) -> char {
    if mode & bit != 0 {
        c
    } else {
        '-'
    }
}

/// Permissions in the style of "drwxr-xr-x".
pub open spec fn mode_text(mode: u32, is_dir: bool) -> Seq<char> {
    seq![
        if is_dir {
            'd'
        } else {
            '-'
        },
        letter(mode, 0x100, 'r'),
        letter(mode, 0x80, 'w'),
        letter(mode, 0x40, 'x'),
        letter(mode, 0x20, 'r'),
        letter(mode, 0x10, 'w'),
        letter(mode, 0x8, 'x'),
        letter(mode, 0x4, 'r'),
        letter(mode, 0x2, 'w'),
        letter(mode, 0x1, 'x'),
    ]
}

fn push_letter(s: &mut String, mode: u32, bit: u32, c: char)
    ensures
        final(s)@ == old(s)@.push(letter(mode, bit, c)),
{
    s.push(
        if mode & bit != 0 {
            c
        } else {
            '-'
        },
    );
}

/// "drwxr-xr-x" style.
pub fn mode_string(mode: u32, is_dir: bool) -> (r: String)
    ensures
        r@ == mode_text(mode, is_dir),
{
    let mut s = String::new();
    s.push(
        if is_dir {
            'd'
        } else {
            '-'
        },
    );
    push_letter(&mut s, mode, 0x100, 'r');
    push_letter(&mut s, mode, 0x80, 'w');
    push_letter(&mut s, mode, 0x40, 'x');
    push_letter(&mut s, mode, 0x20, 'r');
    push_letter(&mut s, mode, 0x10, 'w');
    push_letter(&mut s, mode, 0x8, 'x');
    push_letter(&mut s, mode, 0x4, 'r');
    push_letter(&mut s, mode, 0x2, 'w');
    push_letter(&mut s, mode, 0x1, 'x');
    assert(s@ =~= mode_text(mode, is_dir));
    s
}

/// A mode in octal, with at least three digits.
pub open spec fn octal_text(mode: u32) -> Seq<char> {
    let n = numeral(mode as nat, 8);
    if n.len() == 1 {
        seq!['0', '0'] + n
    } else if n.len() == 2 {
        seq!['0'] + n
    } else {
        n
    }
}

/// Writes a mode in octal, with at least three digits.
pub fn octal(mode: u32) -> (r: String)
    ensures
        r@ == octal_text(mode),
{
    let mut n = String::new();
    push_numeral(&mut n, mode as u64, 8);
    let len = to_chars(n.as_str()).len();
    let mut r = String::new();
    if len <= 2 {
        r.push('0');
    }
    if len <= 1 {
        r.push('0');
    }
    r.push_str(n.as_str());
    proof {
        lemma_numeral_len(mode as nat);
        assert(n@ =~= numeral(mode as nat, 8));
        assert(r@ =~= octal_text(mode));
    }
    r
}

proof fn lemma_numeral_len(n: nat)
    ensures
        numeral(n, 8).len() > 0,
    decreases n,
{
    if n >= 8 {
        lemma_numeral_len(n / 8);
    }
}

/// The mode that an octal text stands for: at most the lower twelve bits.
pub open spec fn octal_value(s: Seq<char>) -> Option<nat> {
    number(trimmed(s), 8, 0xfff)
}

/// Reads a mode in octal.
pub fn parse_octal(s: &str) -> (r: Option<u32>)
    ensures
        match r {
            Some(n) => octal_value(s@) == Some(n as nat),
            None => octal_value(s@) is None,
        },
{
    parse_number(&trim(&to_chars(s)), 8, 0xfff)
}

/// A mode with some bits switched on or off.
pub open spec fn toggled(mode: u32, flag: u32, on: bool) -> u32 {
    if on {
        mode | flag
    } else {
        mode & !flag
    }
}

/// Switches bits of a mode on or off.
pub fn toggle_mode(mode: u32, flag: u32, on: bool) -> (r: u32)
    ensures
        r == toggled(mode, flag, on),
{
    if on {
        mode | flag
    } else {
        mode & !flag
    }
}

/// Switching bits off undoes switching them on where they were off, and the
/// other bits stay.
pub proof fn law_toggle_mode(mode: u32, flag: u32)
    ensures
        toggled(mode, flag, true) & flag == flag,
        toggled(mode, flag, false) & flag == 0,
        toggled(mode, flag, true) & !flag == mode & !flag,
        toggled(mode, flag, false) & !flag == mode & !flag,
        mode & flag == 0 ==> toggled(toggled(mode, flag, true), flag, false) == mode,
{
    assert((mode | flag) & flag == flag) by (bit_vector);
    assert((mode & !flag) & flag == 0) by (bit_vector);
    assert((mode | flag) & !flag == mode & !flag) by (bit_vector);
    assert((mode & !flag) & !flag == mode & !flag) by (bit_vector);
    assert(mode & flag == 0 ==> (mode | flag) & !flag == mode) by (bit_vector);
}

/// A digit that was written is read back.
proof fn lemma_octal_digits(n: nat)
    ensures
        crate::text::digits_value(numeral(n, 8), 8) == Some(n),
        forall|i: int|
            0 <= i < numeral(n, 8).len() ==> '0' <= #[trigger] numeral(n, 8)[i] <= '7',
        numeral(n, 8).len() > 0,
    decreases n,
{
    let d = crate::text::digit_char(n % 8);
    assert(d as int == 48 + n % 8);
    if n < 8 {
        assert(numeral(n, 8).drop_last() =~= Seq::<char>::empty());
        assert(numeral(n, 8)[0] == crate::text::digit_char(n));
        assert(crate::text::digits_value(Seq::<char>::empty(), 8) == Some(0nat));
        assert(crate::text::digit_value(numeral(n, 8).last()) == Some(n));
    } else {
        lemma_octal_digits(n / 8);
        let head = numeral(n / 8, 8);
        assert(numeral(n, 8) == head.push(d));
        assert(numeral(n, 8).drop_last() =~= head);
        assert(n / 8 * 8 + n % 8 == n);
        assert(numeral(n, 8).last() == d);
        assert(crate::text::digit_value(d) == Some((n % 8) as nat));
        assert forall|i: int| 0 <= i < numeral(n, 8).len() implies '0' <= #[trigger] numeral(
            n,
            8,
        )[i] <= '7' by {
            if i < head.len() {
                assert(numeral(n, 8)[i] == head[i]);
            }
        }
    }
}

/// A zero in front of a number changes nothing.
proof fn lemma_leading_zero(s: Seq<char>)
    requires
        crate::text::digits_value(s, 8) is Some,
    ensures
        crate::text::digits_value(seq!['0'] + s, 8) == crate::text::digits_value(s, 8),
    decreases s.len(),
{
    let t = seq!['0'] + s;
    if s.len() == 0 {
        assert(t.drop_last() =~= Seq::<char>::empty());
        assert(t.last() == '0');
        assert(crate::text::digit_value('0') == Some(0nat));
        assert(crate::text::digits_value(Seq::<char>::empty(), 8) == Some(0nat));
        assert(crate::text::digits_value(s, 8) == Some(0nat));
        assert(crate::text::digits_value(t, 8) == Some(0nat));
    } else {
        assert(t.drop_last() =~= seq!['0'] + s.drop_last());
        assert(t.last() == s.last());
        lemma_leading_zero(s.drop_last());
    }
}

/// A mode of twelve bits, written in octal, is read back as it was.
pub proof fn law_octal_round_trip(mode: u32)
    requires
        mode <= 0xfff,
    ensures
        octal_value(octal_text(mode)) == Some(mode as nat),
{
    let n = numeral(mode as nat, 8);
    let s = octal_text(mode);
    lemma_octal_digits(mode as nat);
    assert forall|i: int| 0 <= i < s.len() implies '0' <= #[trigger] s[i] <= '7' by {
        if s.len() > n.len() {
            if i >= s.len() - n.len() {
                assert(s[i] == n[i - (s.len() - n.len())]);
            }
        } else {
            assert(s[i] == n[i]);
        }
    }
    assert('0' <= s[0] <= '7');
    assert('0' <= s[s.len() - 1] <= '7');
    assert(trimmed(s) == s);
    if n.len() == 1 {
        lemma_leading_zero(n);
        lemma_leading_zero(seq!['0'] + n);
        assert(s =~= seq!['0'] + (seq!['0'] + n));
    } else if n.len() == 2 {
        lemma_leading_zero(n);
    }
    assert(crate::text::digits_value(s, 8) == Some(mode as nat));
}

/// A minute of a day, as a calendar and a clock show it.
#[derive(Clone, Copy, PartialEq, Eq, Structural, Debug)]
pub struct Moment {
    pub year: i32,
    pub month: u32,
    pub day: u32,
    pub hour: u32,
    pub minute: u32,
}

/// The first second of the first year that can be shown.
pub const FIRST_SECOND: i64 = -8_334_601_228_800;

/// The last second of the last year that can be shown.
pub const LAST_SECOND: i64 = 8_210_266_876_799;

/// Whether a year has a 29th of February.
pub open spec fn is_leap(year: int) -> bool {
    year % 4 == 0 && (year % 100 != 0 || year % 400 == 0)
}

/// How many days a month has.
pub open spec fn month_days(year: int, month: int) -> int {
    if month == 2 {
        if is_leap(year) {
            29
        } else {
            28
        }
    } else if month == 4 || month == 6 || month == 9 || month == 11 {
        30
    } else {
        31
    }
}

/// How many days of a year come before a month.
pub open spec fn days_before(year: int, month: int) -> int
    decreases month,
{
    if month <= 1 {
        0
    } else {
        days_before(year, month - 1) + month_days(year, month - 1)
    }
}

/// The days from the first of January 1970 to a date.
pub open spec fn days_since_1970(year: int, month: int, day: int) -> int {
    let past = year - 1;
    365 * past + past / 4 - past / 100 + past / 400 + days_before(year, month) + day - 719_163
}

impl Moment {
    /// Whether the calendar has the day and the clock the minute. The year is one
    /// that can be shown, or next to those.
    pub open spec fn exists_on_calendar(self) -> bool {
        &&& -262_144 <= self.year <= 262_143
        &&& 1 <= self.month <= 12
        &&& 1 <= self.day <= month_days(self.year as int, self.month as int)
        &&& self.hour < 24
        &&& self.minute < 60
    }

    /// The minutes from the start of 1970 to this one, both on the same clock.
    pub open spec fn minutes(self) -> int {
        let days = days_since_1970(self.year as int, self.month as int, self.day as int);
        (days * 24 + self.hour) * 60 + self.minute
    }

    /// Whether some clock that is less than a day ahead of universal time or behind
    /// it shows this minute at a moment, given in seconds since 1970.
    pub open spec fn shown_at(self, seconds: int) -> bool {
        seconds - 86_460 < 60 * self.minutes() < seconds + 86_400
    }
}

/// Whether a moment, in seconds since 1970, can be shown.
pub open spec fn can_be_shown(seconds: int) -> bool {
    FIRST_SECOND <= seconds <= LAST_SECOND
}

/// `chrono::Local.timestamp_opt`, with `year`, `month`, `day`, `hour` and `minute` of
/// what it gives: a moment, in seconds since 1970, on the clock of the machine. It
/// gives one for every moment in chrono's range and for no other. Which minute that is
/// depends on the time zone of the machine, which is less than a day away from
/// universal time.
#[verifier::external_body]
fn local_time(seconds: i64) -> (r: Option<Moment>)
    ensures
        r is Some == can_be_shown(seconds as int),
        r matches Some(m) ==> m.exists_on_calendar() && m.shown_at(seconds as int),
{
    let moment = chrono::TimeZone::timestamp_opt(&chrono::Local, seconds, 0).single();
    moment.map(
        |d|
            Moment {
                year: chrono::Datelike::year(&d),
                month: chrono::Datelike::month(&d),
                day: chrono::Datelike::day(&d),
                hour: chrono::Timelike::hour(&d),
                minute: chrono::Timelike::minute(&d),
            },
    )
}

/// A number in base ten with zeros in front up to a width.
pub open spec fn padded(n: nat, width: nat) -> Seq<char> {
    let digits = decimal(n);
    if digits.len() >= width {
        digits
    } else {
        Seq::new((width - digits.len()) as nat, |i: int| '0') + digits
    }
}

/// A year in at least four digits, with a sign where four digits do not do.
pub open spec fn year_text(year: int) -> Seq<char> {
    if year < 0 {
        seq!['-'] + padded((-year) as nat, 4)
    } else if year < 10_000 {
        padded(year as nat, 4)
    } else {
        seq!['+'] + padded(year as nat, 4)
    }
}

/// How a minute is shown: "2023-11-14 22:13".
pub open spec fn time_text(m: Moment) -> Seq<char> {
    year_text(m.year as int) + seq!['-'] + padded(m.month as nat, 2) + seq!['-'] + padded(
        m.day as nat,
        2,
    ) + seq![' '] + padded(m.hour as nat, 2) + seq![':'] + padded(m.minute as nat, 2)
}

fn push_padded(out: &mut String, n: u64, width: usize)
    ensures
        final(out)@ == old(out)@ + padded(n as nat, width as nat),
{
    let digits = crate::text::to_decimal(n);
    let have: usize = to_chars(digits.as_str()).len();
    let mut i: usize = have;
    let ghost start = out@;
    assert(out@ =~= start + Seq::new(0, |i: int| '0'));
    while i < width
        invariant
            have <= i,
            i <= width || i == have,
            out@ == start + Seq::new((i - have) as nat, |i: int| '0'),
        decreases width - i,
    {
        out.push('0');
        i += 1;
        assert(out@ =~= start + Seq::new((i - have) as nat, |i: int| '0'));
    }
    out.push_str(digits.as_str());
    assert(out@ =~= start + padded(n as nat, width as nat));
}

/// What is shown for a moment: nothing where it is not known or cannot be shown.
pub fn shown_time(time: Option<Moment>) -> (r: String)
    ensures
        r@ == match time {
            Some(m) => time_text(m),
            None => Seq::empty(),
        },
        r@ == opt_time_text(time),
{
    let mut r = String::new();
    if let Some(m) = time {
        let mut year: i64 = m.year as i64;
        if year < 0 {
            r.push('-');
            year = -year;
        } else if year >= 10_000 {
            r.push('+');
        }
        push_padded(&mut r, year as u64, 4);
        assert(r@ =~= year_text(m.year as int));
        r.push('-');
        push_padded(&mut r, m.month as u64, 2);
        r.push('-');
        push_padded(&mut r, m.day as u64, 2);
        r.push(' ');
        push_padded(&mut r, m.hour as u64, 2);
        r.push(':');
        push_padded(&mut r, m.minute as u64, 2);
        assert(r@ =~= time_text(m));
    }
    r
}

/// Whether a character is one of the ten digits.
pub open spec fn is_digit(c: char) -> bool {
    '0' <= c <= '9'
}

/// Whether a text has the form of a minute: a year of at least four characters, then
/// month, day, hour and minute in two digits each.
pub open spec fn time_shaped(s: Seq<char>) -> bool {
    let n = s.len();
    &&& n >= 16
    &&& s[n - 12] == '-'
    &&& is_digit(s[n - 11]) && is_digit(s[n - 10])
    &&& s[n - 9] == '-'
    &&& is_digit(s[n - 8]) && is_digit(s[n - 7])
    &&& s[n - 6] == ' '
    &&& is_digit(s[n - 5]) && is_digit(s[n - 4])
    &&& s[n - 3] == ':'
    &&& is_digit(s[n - 2]) && is_digit(s[n - 1])
}

proof fn lemma_two_digits(n: nat)
    requires
        n < 100,
    ensures
        padded(n, 2).len() == 2,
        is_digit(padded(n, 2)[0]),
        is_digit(padded(n, 2)[1]),
{
    reveal_with_fuel(numeral, 2);
    assert(crate::text::digit_char(n % 10) as int == 48 + n % 10);
    if n < 10 {
        assert(decimal(n) =~= seq![crate::text::digit_char(n)]);
    } else {
        assert(crate::text::digit_char(n / 10) as int == 48 + n / 10);
        assert(decimal(n) =~= seq![crate::text::digit_char(n / 10), crate::text::digit_char(n % 10)]);
    }
}

/// Every minute on the calendar is shown in the same form.
pub proof fn law_time_shaped(m: Moment)
    requires
        m.exists_on_calendar(),
    ensures
        time_shaped(time_text(m)),
{
    lemma_two_digits(m.month as nat);
    lemma_two_digits(m.day as nat);
    lemma_two_digits(m.hour as nat);
    lemma_two_digits(m.minute as nat);
    let year = year_text(m.year as int);
    assert(year.len() >= 4);
    let rest = seq!['-'] + padded(m.month as nat, 2) + seq!['-'] + padded(m.day as nat, 2)
        + seq![' '] + padded(m.hour as nat, 2) + seq![':'] + padded(m.minute as nat, 2);
    assert(rest.len() == 12);
    assert(time_text(m) =~= year + rest);
}

/// When a file changed, as it is shown: the minute on the clock of the machine, or
/// nothing where the moment is not known or cannot be shown.
pub fn format_time(mtime: Option<i64>) -> (r: String)
    ensures
        match mtime {
            Some(s) => if can_be_shown(s as int) {
                &&& time_shaped(r@)
                &&& exists|m: Moment|
                    m.exists_on_calendar() && #[trigger] m.shown_at(s as int) && r@ == time_text(m)
            } else {
                r@ == Seq::<char>::empty()
            },
            None => r@ == Seq::<char>::empty(),
        },
{
    match mtime {
        Some(s) => {
            let time = local_time(s);
            proof {
                if let Some(m) = time {
                    law_time_shaped(m);
                    assert(m.shown_at(s as int));
                }
            }
            shown_time(time)
        },
        None => shown_time(None),
    }
}

/// A text with its first letter in upper case and the rest in lower case.
pub open spec fn capital(first: Seq<char>, rest: Seq<char>) -> Seq<char> {
    first + rest
}

/// "COULEUR" → "Couleur" (by chars: slicing bytes would fail on a first letter such as "É").
pub fn capitalized(text: &str) -> (r: String)
    ensures
        r@ == if text@.len() == 0 {
            Seq::empty()
        } else {
            capital(crate::text::uppercase(text@[0]), crate::text::lowercase(text@.skip(1)))
        },
        r@ == capitalized_text(text@),
{
    let v = to_chars(text);
    if v.len() == 0 {
        let r = String::new();
        assert(r@ =~= Seq::empty());
        return r;
    }
    let rest = crate::text::slice(&v, 1, v.len());
    assert(rest@ =~= text@.skip(1));
    let lower = crate::text::to_lowercase(crate::text::from_chars(&rest).as_str());
    capitalized_from(&crate::text::to_uppercase(v[0]), lower.as_str())
}

/// Puts the upper case first letter before the lower case rest.
pub fn capitalized_from(first: &Vec<char>, rest: &str) -> (r: String)
    ensures
        r@ == capital(first@, rest@),
{
    let mut r = crate::text::from_chars(first);
    r.push_str(rest);
    r
}

/// The text of a time, if there is one.
pub open spec fn opt_time_text(time: Option<Moment>) -> Seq<char> {
    match time {
        Some(m) => time_text(m),
        None => Seq::empty(),
    }
}

/// A text with a capital letter first and small ones after it.
pub open spec fn capitalized_text(text: Seq<char>) -> Seq<char> {
    if text.len() == 0 {
        Seq::empty()
    } else {
        capital(crate::text::uppercase(text[0]), crate::text::lowercase(text.skip(1)))
    }
}

} // verus!
