//! How sizes, permissions, times and colors are written.

use crate::color::{from_number, hex_color, hex_pair, Color};
use crate::format::{
    as_double, capitalized_text, days_before, days_since_1970, half_even, is_leap, letter,
    mode_text, month_days, octal_text, octal_value, opt_time_text, padded, scale, size_number,
    size_text, tenths_text, time_text, toggled, ulp, unit_of, Moment,
};
use crate::ids::hex_char;
use crate::strings::Strings;
use crate::text::{
    begins, decimal, digit_value, digits_value, ends, law_decimal_read_back, numeral, replaced,
};
use vstd::prelude::*;

verus! {

/// A quotient is rounded to the nearest whole number, a tie to the even one.
pub proof fn law_half_even(n: nat, d: nat)
    requires
        d > 0,
    ensures
        2 * (n - d * half_even(n, d)) <= d,
        2 * (d * half_even(n, d) - n) <= d,
        2 * (n - d * half_even(n, d)) == d || 2 * (d * half_even(n, d) - n) == d ==> half_even(
            n,
            d,
        ) % 2 == 0,
{
    let q = n / d;
    let r = n % d;
    assert(n == d * q + r && 0 <= r < d) by {
        vstd::arithmetic::div_mod::lemma_fundamental_div_mod(n as int, d as int);
        vstd::arithmetic::div_mod::lemma_mod_bound(n as int, d as int);
    }
    assert(d * (q + 1) == d * q + d) by (nonlinear_arith);
}

/// A whole number is written as it is up to the one that a double holds exactly.
pub proof fn law_exact_size(n: nat)
    requires
        n < 0x20_0000_0000_0000,
    ensures
        as_double(n) == n,
{
    assert(ulp(n) == 1);
    assert(n / 1 == n && n % 1 == 0);
}

/// The unit of a size is the largest that it reaches.
pub proof fn law_unit(v: nat)
    ensures
        unit_of(v) == 0 <==> v < 1024,
        1 <= unit_of(v) ==> scale(unit_of(v)) <= v,
        1 <= unit_of(v) < 4 ==> v < 1024 * scale(unit_of(v)),
        0 <= unit_of(v) <= 4,
        forall|k: int| 0 <= k < 4 ==> #[trigger] scale(k + 1) == 1024 * scale(k),
        scale(0) == 1,
{
}

/// A size below the first unit is written in bytes; a larger one to the nearest tenth of its
/// unit. The unit comes last.
pub proof fn law_size(bytes: nat, t: Strings)
    ensures
        bytes < 1024 ==> size_number(bytes) == decimal(bytes),
        ends(size_text(bytes, t), t.unit(unit_of(as_double(bytes)))),
        1024 <= bytes < 0x20_0000_0000_0000 ==> {
            let s = scale(unit_of(bytes));
            exists|tenths: nat|
                size_number(bytes) == #[trigger] tenths_text(tenths) && 2 * (10 * bytes - s * tenths)
                    <= s && 2 * (s * tenths - 10 * bytes) <= s
        },
        !t.decimal_comma ==> begins(size_text(bytes, t), size_number(bytes)),
        t.decimal_comma ==> begins(size_text(bytes, t), replaced(size_number(bytes), '.', ',')),
{
    let u = t.unit(unit_of(as_double(bytes)));
    let r = size_text(bytes, t);
    assert(r.skip(r.len() - u.len()) =~= u);
    let n = if t.decimal_comma {
        replaced(size_number(bytes), '.', ',')
    } else {
        size_number(bytes)
    };
    assert(r.take(n.len() as int) =~= n);
    if bytes < 0x20_0000_0000_0000 {
        law_exact_size(bytes);
        let s = scale(unit_of(bytes));
        law_half_even(bytes * 10, s);
        if bytes >= 1024 {
            assert(size_number(bytes) == tenths_text(half_even(bytes * 10, s)));
        }
    }
}

/// Tenths are written with a point before the last digit.
pub proof fn law_tenths(n: nat)
    ensures
        ({
            let r = tenths_text(n);
            let k = r.len() - 2;
            &&& k > 0
            &&& r[k] == '.'
            &&& digits_value(r.take(k), 10) == Some(n / 10)
            &&& digit_value(r.last()) == Some(n % 10)
        }),
{
    let r = tenths_text(n);
    let d = decimal(n % 10);
    law_decimal_read_back(n / 10);
    assert(d.len() == 1);
    assert(r.take(r.len() - 2) =~= decimal(n / 10));
}

/// The permissions are written for the owner, the group and the others: reading, writing and
/// executing; a folder starts with "d".
pub proof fn law_mode_letters(mode: u32, is_dir: bool)
    ensures
        mode_text(mode, is_dir).len() == 10,
        mode_text(mode, is_dir)[0] == if is_dir {
            'd'
        } else {
            '-'
        },
        mode_text(mode, is_dir)[1] == if mode & 0x100 != 0 {
            'r'
        } else {
            '-'
        },
        mode_text(mode, is_dir)[2] == if mode & 0x80 != 0 {
            'w'
        } else {
            '-'
        },
        mode_text(mode, is_dir)[3] == if mode & 0x40 != 0 {
            'x'
        } else {
            '-'
        },
        mode_text(mode, is_dir)[4] == if mode & 0x20 != 0 {
            'r'
        } else {
            '-'
        },
        mode_text(mode, is_dir)[5] == if mode & 0x10 != 0 {
            'w'
        } else {
            '-'
        },
        mode_text(mode, is_dir)[6] == if mode & 0x8 != 0 {
            'x'
        } else {
            '-'
        },
        mode_text(mode, is_dir)[7] == if mode & 0x4 != 0 {
            'r'
        } else {
            '-'
        },
        mode_text(mode, is_dir)[8] == if mode & 0x2 != 0 {
            'w'
        } else {
            '-'
        },
        mode_text(mode, is_dir)[9] == if mode & 0x1 != 0 {
            'x'
        } else {
            '-'
        },
{
}

/// A permission that is switched on is shown, one that is switched off is not, and no other
/// one changes.
pub proof fn law_switched_permission(mode: u32, flag: u32, other: u32, c: char)
    requires
        flag != 0,
        flag & other == 0,
    ensures
        letter(toggled(mode, flag, true), flag, c) == c,
        letter(toggled(mode, flag, false), flag, c) == '-',
        letter(toggled(mode, flag, true), other, c) == letter(mode, other, c),
        letter(toggled(mode, flag, false), other, c) == letter(mode, other, c),
{
    assert((mode | flag) & flag == flag) by (bit_vector);
    assert((mode & !flag) & flag == 0) by (bit_vector);
    assert((mode | flag) & other == mode & other) by (bit_vector)
        requires
            flag & other == 0,
    ;
    assert((mode & !flag) & other == mode & other) by (bit_vector)
        requires
            flag & other == 0,
    ;
}

/// Permissions are written in octal, with at least three digits.
pub proof fn law_octal(mode: u32)
    ensures
        octal_text(mode).len() >= 3,
        ends(octal_text(mode), numeral(mode as nat, 8)),
        octal_value(octal_text(mode)) matches Some(v) ==> v <= 0xfff,
{
    let n = numeral(mode as nat, 8);
    let r = octal_text(mode);
    assert(n.len() > 0);
    assert(r.skip(r.len() - n.len()) =~= n);
    crate::text_laws::law_number_bounded(crate::text::trimmed(r), 8, 0xfff);
}

proof fn lemma_zeros(k: nat, s: Seq<char>)
    ensures
        digits_value(Seq::new(k, |i: int| '0') + s, 10) == digits_value(s, 10),
    decreases k + s.len(),
{
    let z = Seq::new(k, |i: int| '0');
    let all = z + s;
    if s.len() > 0 {
        lemma_zeros(k, s.drop_last());
        assert(all.drop_last() =~= z + s.drop_last());
    } else if k > 0 {
        lemma_zeros((k - 1) as nat, s);
        assert(all.drop_last() =~= Seq::new((k - 1) as nat, |i: int| '0') + s);
        assert(all.last() == '0');
    } else {
        assert(all =~= s);
    }
}

/// A number with zeros before it has its value, and the width.
pub proof fn law_padded(n: nat, width: nat)
    ensures
        digits_value(padded(n, width), 10) == Some(n),
        padded(n, width).len() >= width,
        decimal(n).len() <= width ==> padded(n, width).len() == width,
{
    law_decimal_read_back(n);
    let d = decimal(n);
    if d.len() < width {
        lemma_zeros((width - d.len()) as nat, d);
    }
}

proof fn lemma_short(n: nat)
    ensures
        n < 100 ==> decimal(n).len() <= 2,
        n < 10_000 ==> decimal(n).len() <= 4,
{
    reveal_with_fuel(numeral, 5);
}

/// A time is written as year, month, day, hour and minute, in this order, each read back as
/// it is.
pub proof fn law_time_read_back(m: Moment)
    requires
        m.exists_on_calendar(),
        0 <= m.year < 10_000,
    ensures
        ({
            let t = time_text(m);
            &&& t.len() == 16
            &&& digits_value(t.subrange(0, 4), 10) == Some(m.year as nat)
            &&& t[4] == '-'
            &&& digits_value(t.subrange(5, 7), 10) == Some(m.month as nat)
            &&& t[7] == '-'
            &&& digits_value(t.subrange(8, 10), 10) == Some(m.day as nat)
            &&& t[10] == ' '
            &&& digits_value(t.subrange(11, 13), 10) == Some(m.hour as nat)
            &&& t[13] == ':'
            &&& digits_value(t.subrange(14, 16), 10) == Some(m.minute as nat)
        }),
{
    let t = time_text(m);
    let y = padded(m.year as nat, 4);
    let mo = padded(m.month as nat, 2);
    let d = padded(m.day as nat, 2);
    let h = padded(m.hour as nat, 2);
    let mi = padded(m.minute as nat, 2);
    law_padded(m.year as nat, 4);
    law_padded(m.month as nat, 2);
    law_padded(m.day as nat, 2);
    law_padded(m.hour as nat, 2);
    law_padded(m.minute as nat, 2);
    lemma_short(m.year as nat);
    lemma_short(m.month as nat);
    lemma_short(m.day as nat);
    lemma_short(m.hour as nat);
    lemma_short(m.minute as nat);
    assert(t.subrange(0, 4) =~= y);
    assert(t.subrange(5, 7) =~= mo);
    assert(t.subrange(8, 10) =~= d);
    assert(t.subrange(11, 13) =~= h);
    assert(t.subrange(14, 16) =~= mi);
}

/// A time that is not known is written as nothing.
pub proof fn law_no_time(m: Moment)
    ensures
        opt_time_text(None).len() == 0,
        opt_time_text(Some(m)) == time_text(m),
{
}

/// The days follow each other: the day after one of a month is the next, the one after the
/// last of a month is the first of the next month, and so with the years.
pub proof fn law_calendar(year: int, month: int, day: int)
    requires
        1 <= month <= 12,
    ensures
        days_since_1970(year, month, day + 1) == days_since_1970(year, month, day) + 1,
        month < 12 ==> days_since_1970(year, month + 1, 1) == days_since_1970(
            year,
            month,
            month_days(year, month),
        ) + 1,
        days_since_1970(year + 1, 1, 1) == days_since_1970(year, 12, 31) + 1,
        days_since_1970(1970, 1, 1) == 0,
{
    lemma_until_december(year);
    lemma_past_years(year - 1);
}

proof fn lemma_until_december(year: int)
    ensures
        days_before(year, 12) == 334 + (if is_leap(year) {
            1int
        } else {
            0
        }),
{
    assert(days_before(year, 1) == 0);
    assert(days_before(year, 2) == 31);
    let feb = month_days(year, 2);
    assert(days_before(year, 3) == 31 + feb);
    assert(days_before(year, 4) == 62 + feb);
    assert(days_before(year, 5) == 92 + feb);
    assert(days_before(year, 6) == 123 + feb);
    assert(days_before(year, 7) == 153 + feb);
    assert(days_before(year, 8) == 184 + feb);
    assert(days_before(year, 9) == 215 + feb);
    assert(days_before(year, 10) == 245 + feb);
    assert(days_before(year, 11) == 276 + feb);
    assert(days_before(year, 12) == 306 + feb);
}

proof fn lemma_past_years(past: int)
    ensures
        (past + 1) / 4 - (past + 1) / 100 + (past + 1) / 400 == past / 4 - past / 100 + past / 400 + (
        if is_leap(past + 1) {
            1int
        } else {
            0
        }),
{
}

/// Every fourth year is a leap year, but not every hundredth, and yet every four hundredth;
/// February has a day more then.
pub proof fn law_leap_years(year: int)
    ensures
        year % 4 != 0 ==> !is_leap(year),
        year % 4 == 0 && year % 100 != 0 ==> is_leap(year),
        year % 100 == 0 && year % 400 != 0 ==> !is_leap(year),
        year % 400 == 0 ==> is_leap(year),
        month_days(year, 2) == if is_leap(year) {
            29int
        } else {
            28
        },
        month_days(year, 1) + month_days(year, 3) + month_days(year, 5) + month_days(year, 7)
            + month_days(year, 8) + month_days(year, 10) + month_days(year, 12) == 7 * 31,
        month_days(year, 4) + month_days(year, 6) + month_days(year, 9) + month_days(year, 11) == 4
            * 30,
{
}

/// A time of a day counts the minutes since midnight.
pub proof fn law_minutes(m: Moment, n: Moment)
    requires
        m.year == n.year && m.month == n.month && m.day == n.day,
    ensures
        n.minutes() - m.minutes() == 60 * (n.hour - m.hour) + (n.minute - m.minute),
{
}

proof fn lemma_pair(v: u8)
    ensures
        digits_value(hex_pair(v), 16) == Some(v as nat),
{
    let p = hex_pair(v);
    let (a, b) = (v as int / 16, v as int % 16);
    assert(0 <= a < 16 && 0 <= b < 16);
    assert(digit_value(hex_char(a)) == Some(a as nat));
    assert(digit_value(hex_char(b)) == Some(b as nat));
    assert(p.drop_last() =~= seq![hex_char(a)]);
    assert(p.drop_last().drop_last() =~= Seq::empty());
    reveal_with_fuel(digits_value, 3);
    assert(a * 16 + b == v);
}

/// A color is written as red, green and blue, two hexadecimal digits each.
pub proof fn law_color_parts(c: Color)
    ensures
        hex_color(c).len() == 7,
        hex_color(c)[0] == '#',
        digits_value(hex_color(c).subrange(1, 3), 16) == Some(c.r as nat),
        digits_value(hex_color(c).subrange(3, 5), 16) == Some(c.g as nat),
        digits_value(hex_color(c).subrange(5, 7), 16) == Some(c.b as nat),
{
    let t = hex_color(c);
    lemma_pair(c.r);
    lemma_pair(c.g);
    lemma_pair(c.b);
    assert(t.subrange(1, 3) =~= hex_pair(c.r));
    assert(t.subrange(3, 5) =~= hex_pair(c.g));
    assert(t.subrange(5, 7) =~= hex_pair(c.b));
}

/// The parts of a color that is read are those of its number.
pub proof fn law_color_number(r: u8, g: u8, b: u8)
    ensures
        from_number(r * 65536 + g * 256 + b) == (Color { r, g, b }),
{
    let v = r * 65536 + g * 256 + b;
    assert(v / 65536 == r);
    assert(v / 256 == r * 256 + g);
    assert((r * 256 + g) % 256 == g);
    assert(v % 256 == b);
    assert(r as int % 256 == r);
}

/// The first character of a name is a capital, the rest is small.
pub proof fn law_capitalized(text: Seq<char>)
    ensures
        text.len() == 0 ==> capitalized_text(text).len() == 0,
        text.len() > 0 ==> begins(capitalized_text(text), crate::text::uppercase(text[0])) && ends(
            capitalized_text(text),
            crate::text::lowercase(text.skip(1)),
        ) && capitalized_text(text).len() == crate::text::uppercase(text[0]).len()
            + crate::text::lowercase(text.skip(1)).len(),
{
    if text.len() > 0 {
        let (a, b) = (crate::text::uppercase(text[0]), crate::text::lowercase(text.skip(1)));
        let r = capitalized_text(text);
        assert(r.take(a.len() as int) =~= a);
        assert(r.skip(r.len() - b.len()) =~= b);
    }
}

} // verus!
