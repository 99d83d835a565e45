//! Second-precision UTC timestamps written `YYYY-MM-DDTHH-MM-SS`.

use vstd::prelude::*;
use crate::text::{chars_of, push_char};

verus! {

/// A calendar instant, to the second, in UTC.
#[derive(Clone, Copy, Debug, PartialEq, Eq, Structural)]
pub struct Stamp {
    pub year: u16,
    pub month: u8,
    pub day: u8,
    pub hour: u8,
    pub minute: u8,
    pub second: u8,
}

pub open spec fn is_leap_year(y: int) -> bool {
    (y % 4 == 0 && y % 100 != 0) || y % 400 == 0
}

pub open spec fn days_in_month(y: int, m: int) -> int {
    if m == 2 {
        if is_leap_year(y) { 29 } else { 28 }
    } else if m == 4 || m == 6 || m == 9 || m == 11 {
        30
    } else {
        31
    }
}

impl Stamp {
    /// A real date of a four-digit year, and a time of day.
    pub open spec fn valid(self) -> bool {
        &&& self.year <= 9999
        &&& 1 <= self.month <= 12
        &&& 1 <= self.day <= days_in_month(self.year as int, self.month as int)
        &&& self.hour < 24
        &&& self.minute < 60
        &&& self.second < 60
    }
}

/// Chronological order: field by field, from the year down.
pub open spec fn stamp_lt(a: Stamp, b: Stamp) -> bool {
    if a.year != b.year {
        a.year < b.year
    } else if a.month != b.month {
        a.month < b.month
    } else if a.day != b.day {
        a.day < b.day
    } else if a.hour != b.hour {
        a.hour < b.hour
    } else if a.minute != b.minute {
        a.minute < b.minute
    } else {
        a.second < b.second
    }
}

pub open spec fn is_digit(c: char) -> bool {
    '0' <= c && c <= '9'
}

pub open spec fn all_digits(s: Seq<char>) -> bool {
    forall|i: int| 0 <= i < s.len() ==> is_digit(#[trigger] s[i])
}

/// The value of a string of decimal digits.
pub open spec fn digits_value(s: Seq<char>) -> int
    decreases s.len(),
{
    if s.len() == 0 {
        0
    } else {
        digits_value(s.drop_last()) * 10 + (s.last() as int - '0' as int)
    }
}

pub open spec fn digit_char(d: int) -> char {
    ('0' as int + d) as char
}

/// `v` written in decimal with exactly `width` digits, zero-padded.
pub open spec fn padded(v: int, width: nat) -> Seq<char>
    decreases width,
{
    if width == 0 {
        Seq::empty()
    } else {
        padded(v / 10, (width - 1) as nat).push(digit_char(v % 10))
    }
}

/// The text of a stamp.
pub open spec fn stamp_text(s: Stamp) -> Seq<char> {
    padded(s.year as int, 4) + seq!['-'] + padded(s.month as int, 2) + seq!['-']
        + padded(s.day as int, 2) + seq!['T'] + padded(s.hour as int, 2) + seq!['-']
        + padded(s.minute as int, 2) + seq!['-'] + padded(s.second as int, 2)
}

/// The digits of `t` from `a` to `b`, as a number.
pub open spec fn field(t: Seq<char>, a: int, b: int) -> int {
    digits_value(t.subrange(a, b))
}

/// `t` has the shape `DDDD-DD-DDTDD-DD-DD`.
pub open spec fn stamp_shaped(t: Seq<char>) -> bool {
    &&& t.len() == 19
    &&& t[4] == '-' && t[7] == '-' && t[10] == 'T' && t[13] == '-' && t[16] == '-'
    &&& all_digits(t.subrange(0, 4))
    &&& all_digits(t.subrange(5, 7))
    &&& all_digits(t.subrange(8, 10))
    &&& all_digits(t.subrange(11, 13))
    &&& all_digits(t.subrange(14, 16))
    &&& all_digits(t.subrange(17, 19))
}

/// The stamp that `t` writes, if it is well formed and names a real instant.
pub open spec fn stamp_of(t: Seq<char>) -> Option<Stamp> {
    if stamp_shaped(t) {
        let s = Stamp {
            year: field(t, 0, 4) as u16,
            month: field(t, 5, 7) as u8,
            day: field(t, 8, 10) as u8,
            hour: field(t, 11, 13) as u8,
            minute: field(t, 14, 16) as u8,
            second: field(t, 17, 19) as u8,
        };
        if s.valid() { Some(s) } else { None }
    } else {
        None
    }
}

pub proof fn lemma_digits_bound(s: Seq<char>)
    requires
        all_digits(s),
    ensures
        0 <= digits_value(s) < pow10(s.len()),
    decreases s.len(),
{
    if s.len() > 0 {
        assert(all_digits(s.drop_last())) by {
            assert forall|i: int| 0 <= i < s.drop_last().len() implies is_digit(
                #[trigger] s.drop_last()[i],
            ) by {
                assert(s.drop_last()[i] == s[i]);
            }
        }
        assert(is_digit(s[s.len() - 1]));
        lemma_digits_bound(s.drop_last());
    }
}

pub open spec fn pow10(n: nat) -> int
    decreases n,
{
    if n == 0 { 1 } else { 10 * pow10((n - 1) as nat) }
}

proof fn lemma_pow10_small()
    ensures
        pow10(0) == 1,
        pow10(1) == 10,
        pow10(2) == 100,
        pow10(3) == 1000,
        pow10(4) == 10000,
{
    assert(pow10(0) == 1);
    assert(pow10(1) == 10);
    assert(pow10(2) == 100);
    assert(pow10(3) == 1000);
    assert(pow10(4) == 10000);
}

proof fn lemma_padded_digits(v: int, width: nat)
    requires
        0 <= v,
    ensures
        padded(v, width).len() == width,
        all_digits(padded(v, width)),
        v < pow10(width) ==> digits_value(padded(v, width)) == v,
    decreases width,
{
    if width > 0 {
        let w1 = (width - 1) as nat;
        lemma_padded_digits(v / 10, w1);
        let p = padded(v, width);
        let q = padded(v / 10, w1);
        assert(p == q.push(digit_char(v % 10)));
        assert(p.drop_last() == q);
        assert(('0' as int + v % 10) as char as int == '0' as int + v % 10);
        assert forall|i: int| 0 <= i < p.len() implies is_digit(#[trigger] p[i]) by {
            if i < q.len() {
                assert(p[i] == q[i]);
            }
        }
        if v < pow10(width) {
            assert(v / 10 < pow10(w1));
        }
    }
}

proof fn lemma_field(t: Seq<char>, a: int, v: int, w: nat)
    requires
        0 <= a,
        a + w <= t.len(),
        t.subrange(a, a + w) == padded(v, w),
        0 <= v < pow10(w),
    ensures
        field(t, a, a + w) == v,
        all_digits(t.subrange(a, a + w)),
{
    lemma_padded_digits(v, w);
}

/// The text of a stamp has 19 characters, none of them a `|`.
pub proof fn lemma_stamp_text_shape(s: Stamp)
    ensures
        stamp_text(s).len() == 19,
        forall|i: int| 0 <= i < 19 ==> #[trigger] stamp_text(s)[i] != '|',
{
    let t = stamp_text(s);
    lemma_padded_digits(s.year as int, 4);
    lemma_padded_digits(s.month as int, 2);
    lemma_padded_digits(s.day as int, 2);
    lemma_padded_digits(s.hour as int, 2);
    lemma_padded_digits(s.minute as int, 2);
    lemma_padded_digits(s.second as int, 2);
    assert forall|i: int| 0 <= i < 19 implies #[trigger] t[i] != '|' by {
        if i < 4 {
            assert(t[i] == padded(s.year as int, 4)[i]);
        } else if 4 < i < 7 {
            assert(t[i] == padded(s.month as int, 2)[i - 5]);
        } else if 7 < i < 10 {
            assert(t[i] == padded(s.day as int, 2)[i - 8]);
        } else if 10 < i < 13 {
            assert(t[i] == padded(s.hour as int, 2)[i - 11]);
        } else if 13 < i < 16 {
            assert(t[i] == padded(s.minute as int, 2)[i - 14]);
        } else if 16 < i {
            assert(t[i] == padded(s.second as int, 2)[i - 17]);
        }
    }
}

/// Reading back the text of a valid stamp gives the stamp.
pub proof fn lemma_stamp_round_trip(s: Stamp)
    requires
        s.valid(),
    ensures
        stamp_of(stamp_text(s)) == Some(s),
{
    let t = stamp_text(s);
    lemma_padded_digits(s.year as int, 4);
    lemma_padded_digits(s.month as int, 2);
    lemma_padded_digits(s.day as int, 2);
    lemma_padded_digits(s.hour as int, 2);
    lemma_padded_digits(s.minute as int, 2);
    lemma_padded_digits(s.second as int, 2);
    lemma_pow10_small();
    assert(t.len() == 19);
    assert(t.subrange(0, 4) =~= padded(s.year as int, 4));
    assert(t.subrange(5, 7) =~= padded(s.month as int, 2));
    assert(t.subrange(8, 10) =~= padded(s.day as int, 2));
    assert(t.subrange(11, 13) =~= padded(s.hour as int, 2));
    assert(t.subrange(14, 16) =~= padded(s.minute as int, 2));
    assert(t.subrange(17, 19) =~= padded(s.second as int, 2));
    assert(t[4] == '-' && t[7] == '-' && t[10] == 'T' && t[13] == '-' && t[16] == '-');
    lemma_field(t, 0, s.year as int, 4);
    lemma_field(t, 5, s.month as int, 2);
    lemma_field(t, 8, s.day as int, 2);
    lemma_field(t, 11, s.hour as int, 2);
    lemma_field(t, 14, s.minute as int, 2);
    lemma_field(t, 17, s.second as int, 2);
}

/// The number written by `t[a..b]`, or `None` where a character there is no digit.
fn read_number(t: &Vec<char>, a: usize, b: usize) -> (r: Option<u32>)
    requires
        a <= b <= t@.len(),
        b - a <= 4,
    ensures
        r == (if all_digits(t@.subrange(a as int, b as int)) {
            Some(field(t@, a as int, b as int) as u32)
        } else {
            None::<u32>
        }),
{
    let mut v: u32 = 0;
    let mut i: usize = a;
    while i < b
        invariant
            a <= i <= b <= t@.len(),
            b - a <= 4,
            all_digits(t@.subrange(a as int, i as int)),
            v == field(t@, a as int, i as int),
            v < pow10((i - a) as nat),
        decreases b - i,
    {
        let c = t[i];
        if !('0' <= c && c <= '9') {
            assert(!is_digit(t@.subrange(a as int, b as int)[i - a]));
            return None;
        }
        proof {
            let s0 = t@.subrange(a as int, i as int);
            let s1 = t@.subrange(a as int, i + 1);
            assert(s1.drop_last() =~= s0);
            assert(s1.last() == c);
            assert forall|j: int| 0 <= j < s1.len() implies is_digit(#[trigger] s1[j]) by {
                if j < s0.len() {
                    assert(s1[j] == s0[j]);
                }
            }
            lemma_pow10_small();
        }
        v = v * 10 + (c as u32 - '0' as u32);
        i = i + 1;
    }
    Some(v)
}

/// Reads a stamp from its text.
pub fn parse_stamp(t: &str) -> (r: Option<Stamp>)
    ensures
        r == stamp_of(t@),
{
    let v = chars_of(t);
    if v.len() != 19 {
        return None;
    }
    if !(v[4] == '-' && v[7] == '-' && v[10] == 'T' && v[13] == '-' && v[16] == '-') {
        return None;
    }
    let y = read_number(&v, 0, 4);
    let mo = read_number(&v, 5, 7);
    let d = read_number(&v, 8, 10);
    let h = read_number(&v, 11, 13);
    let mi = read_number(&v, 14, 16);
    let s = read_number(&v, 17, 19);
    match (y, mo, d, h, mi, s) {
        (Some(y), Some(mo), Some(d), Some(h), Some(mi), Some(s)) => {
            proof {
                lemma_digits_bound(v@.subrange(0, 4));
                lemma_digits_bound(v@.subrange(5, 7));
                lemma_digits_bound(v@.subrange(8, 10));
                lemma_digits_bound(v@.subrange(11, 13));
                lemma_digits_bound(v@.subrange(14, 16));
                lemma_digits_bound(v@.subrange(17, 19));
                lemma_pow10_small();
            }
            let st = Stamp {
                year: y as u16,
                month: mo as u8,
                day: d as u8,
                hour: h as u8,
                minute: mi as u8,
                second: s as u8,
            };
            if is_valid(&st) {
                Some(st)
            } else {
                None
            }
        },
        _ => None,
    }
}

/// Whether `s` is a valid stamp.
pub fn is_valid(s: &Stamp) -> (r: bool)
    ensures
        r == s.valid(),
{
    let y = s.year as u32;
    let leap = (y % 4 == 0 && y % 100 != 0) || y % 400 == 0;
    let dim: u8 = if s.month == 2 {
        if leap { 29 } else { 28 }
    } else if s.month == 4 || s.month == 6 || s.month == 9 || s.month == 11 {
        30
    } else {
        31
    };
    s.year <= 9999 && 1 <= s.month && s.month <= 12 && 1 <= s.day && s.day <= dim && s.hour < 24
        && s.minute < 60 && s.second < 60
}

/// Appends `v` written with `width` digits, zero-padded.
fn push_padded(out: &mut String, v: u32, width: usize)
    requires
        width <= 4,
    ensures
        final(out)@ == old(out)@ + padded(v as int, width as nat),
    decreases width,
{
    if width > 0 {
        push_padded(out, v / 10, width - 1);
        let d = (v % 10) as u8;
        let c = ('0' as u8 + d) as char;
        assert(c == digit_char(v as int % 10));
        push_char(out, c);
        assert(final(out)@ =~= old(out)@ + padded(v as int, width as nat));
    }
}

/// The text of a stamp.
pub fn format_stamp(s: &Stamp) -> (r: String)
    ensures
        r@ == stamp_text(*s),
{
    let mut out = String::new();
    push_padded(&mut out, s.year as u32, 4);
    push_char(&mut out, '-');
    push_padded(&mut out, s.month as u32, 2);
    push_char(&mut out, '-');
    push_padded(&mut out, s.day as u32, 2);
    push_char(&mut out, 'T');
    push_padded(&mut out, s.hour as u32, 2);
    push_char(&mut out, '-');
    push_padded(&mut out, s.minute as u32, 2);
    push_char(&mut out, '-');
    push_padded(&mut out, s.second as u32, 2);
    assert(out@ =~= stamp_text(*s));
    out
}

} // verus!
