//! Offset labels: which of them name the target region, and how a literal
//! offset label reads as a number of seconds east of UTC.

use vstd::prelude::*;
use crate::text::{chars_of, split_on};

verus! {

/// The labels that name the target region: numeric offsets and zone names.
pub open spec fn target_labels() -> Seq<Seq<char>> {
    seq![
        seq!['+', '0', '8', '0', '0'],
        seq!['+', '0', '8', ':', '0', '0'],
        seq!['C', 'S', 'T'],
        seq!['A', 's', 'i', 'a', '/', 'S', 'h', 'a', 'n', 'g', 'h', 'a', 'i'],
    ]
}

/// A label belongs to the target region when it is one of the target
/// labels.
pub open spec fn is_target_label(tz: Seq<char>) -> bool {
    exists|k: int| 0 <= k < target_labels().len() && tz == #[trigger] target_labels()[k]
}

fn target_label(k: usize) -> (r: Vec<char>)
    requires
        k < 4,
    ensures
        r@ == target_labels()[k as int],
{
    let r = if k == 0 {
        vec!['+', '0', '8', '0', '0']
    } else if k == 1 {
        vec!['+', '0', '8', ':', '0', '0']
    } else if k == 2 {
        vec!['C', 'S', 'T']
    } else {
        vec!['A', 's', 'i', 'a', '/', 'S', 'h', 'a', 'n', 'g', 'h', 'a', 'i']
    };
    assert(r@ =~= target_labels()[k as int]);
    r
}

/// Whether the offset label `timezone` is one of the target region's labels.
pub fn is_china_timezone(timezone: &str) -> (r: bool)
    ensures
        r == is_target_label(timezone@),
{
    let tz = chars_of(timezone);
    is_target_chars(&tz)
}

/// Whether the label given by its characters is one of the target labels.
pub fn is_target_chars(tz: &Vec<char>) -> (r: bool)
    ensures
        r == is_target_label(tz@),
{
    let mut k: usize = 0;
    while k < 4
        invariant
            k <= 4,
            forall|j: int| 0 <= j < k ==> tz@ != #[trigger] target_labels()[j],
        decreases 4 - k,
    {
        let label = target_label(k);
        if same_chars(tz, &label) {
            return true;
        }
        k = k + 1;
    }
    false
}

/// Whether `c` is an ASCII decimal digit.
pub open spec fn is_digit(c: char) -> bool {
    '0' <= c <= '9'
}

/// The value of a run of decimal digits.
pub open spec fn digits_value(s: Seq<char>) -> int
    decreases s.len(),
{
    if s.len() == 0 {
        0
    } else {
        10 * digits_value(s.drop_last()) + (s.last() as int - '0' as int)
    }
}

/// Whether every character of `s` is a decimal digit.
pub open spec fn all_digits(s: Seq<char>) -> bool {
    forall|i: int| 0 <= i < s.len() ==> is_digit(#[trigger] s[i])
}

/// A signed decimal integer as `i32::from_str` reads it: an optional sign
/// followed by at least one digit.
pub open spec fn int_of(s: Seq<char>) -> Option<int> {
    if s.len() > 0 && (s[0] == '+' || s[0] == '-') {
        let d = s.drop_first();
        if d.len() > 0 && all_digits(d) {
            Some(if s[0] == '-' { -digits_value(d) } else { digits_value(d) })
        } else {
            None
        }
    } else if s.len() > 0 && all_digits(s) {
        Some(digits_value(s))
    } else {
        None
    }
}

/// Number of sign characters at the start of `s`.
pub open spec fn leading_signs(s: Seq<char>) -> nat
    decreases s.len(),
{
    if s.len() > 0 && (s[0] == '+' || s[0] == '-') {
        1 + leading_signs(s.drop_first())
    } else {
        0
    }
}

/// Seconds east of UTC for hours and minutes with a sign.
pub open spec fn signed_seconds(sign: int, hours: int, minutes: int) -> int {
    sign * (hours * 3600 + minutes * 60)
}

/// The offset that a label starting with a sign spells as `hhmm` or
/// `hh:mm`, in seconds east of UTC, before any range check.
pub open spec fn numeric_offset(tz: Seq<char>) -> Option<int> {
    if tz.len() > 0 && (tz[0] == '+' || tz[0] == '-') {
        let sign: int = if tz[0] == '+' { 1 } else { -1 };
        let t = tz.skip(leading_signs(tz) as int);
        let parts = split_on(t, ':');
        if t.len() == 4 && int_of(t.take(2)) is Some && int_of(t.subrange(2, 4)) is Some {
            Some(signed_seconds(sign, int_of(t.take(2))->0, int_of(t.subrange(2, 4))->0))
        } else if t.len() == 5 && parts.len() == 2 && int_of(parts[0]) is Some && int_of(parts[1]) is Some {
            Some(signed_seconds(sign, int_of(parts[0])->0, int_of(parts[1])->0))
        } else {
            None
        }
    } else {
        None
    }
}

/// The zone names read as the target region's offset.
pub open spec fn named_target_zone(tz: Seq<char>) -> bool {
    ||| tz == seq!['C', 'S', 'T']
    ||| tz == seq!['A', 's', 'i', 'a', '/', 'S', 'h', 'a', 'n', 'g', 'h', 'a', 'i']
    ||| tz == seq!['A', 's', 'i', 'a', '/', 'B', 'e', 'i', 'j', 'i', 'n', 'g']
}

/// The offset of a label in seconds east of UTC: a numeric label within a
/// day of UTC, or eight hours for the target region's zone names.
pub open spec fn offset_seconds(tz: Seq<char>) -> Option<int> {
    match numeric_offset(tz) {
        Some(secs) => if -86400 < secs < 86400 { Some(secs) } else { None },
        None => if named_target_zone(tz) { Some(8 * 3600int) } else { None },
    }
}

proof fn lemma_digits_bound(s: Seq<char>)
    requires
        all_digits(s),
    ensures
        0 <= digits_value(s),
        s.len() <= 4 ==> digits_value(s) < 10000,
    decreases s.len(),
{
    if s.len() > 0 {
        let t = s.drop_last();
        assert(all_digits(t)) by {
            assert forall|i: int| 0 <= i < t.len() implies is_digit(#[trigger] t[i]) by {
                assert(t[i] == s[i]);
            }
        }
        lemma_digits_bound(t);
        assert(is_digit(s[s.len() - 1]));
        if s.len() <= 4 {
            assert(digits_value(t) < 1000) by {
                lemma_digits_short(t);
            }
        }
    }
}

proof fn lemma_digits_short(s: Seq<char>)
    requires
        all_digits(s),
        s.len() <= 3,
    ensures
        0 <= digits_value(s) < 1000,
        s.len() <= 2 ==> digits_value(s) < 100,
        s.len() <= 1 ==> digits_value(s) < 10,
    decreases s.len(),
{
    if s.len() > 0 {
        let t = s.drop_last();
        assert(all_digits(t)) by {
            assert forall|i: int| 0 <= i < t.len() implies is_digit(#[trigger] t[i]) by {
                assert(t[i] == s[i]);
            }
        }
        lemma_digits_short(t);
        assert(is_digit(s[s.len() - 1]));
    }
}

/// `int_of` on `v[from..to]`, for at most four characters.
fn small_int(v: &Vec<char>, from: usize, to: usize) -> (r: Option<i32>)
    requires
        from <= to <= v@.len(),
        to - from <= 4,
    ensures
        match int_of(v@.subrange(from as int, to as int)) {
            Some(n) => r == Some(n as i32) && -10000 < n < 10000,
            None => r is None,
        },
{
    let ghost s = v@.subrange(from as int, to as int);
    if from == to {
        return None;
    }
    let negative = v[from] == '-';
    let start = if v[from] == '+' || v[from] == '-' { from + 1 } else { from };
    if start == to {
        return None;
    }
    let ghost d = v@.subrange(start as int, to as int);
    assert(start > from ==> d =~= s.drop_first());
    assert(start == from ==> d =~= s);
    let mut value: i32 = 0;
    let mut i: usize = start;
    assert(v@.subrange(start as int, start as int) =~= Seq::<char>::empty());
    while i < to
        invariant
            from <= start <= i <= to <= v@.len(),
            to - start <= 4,
            d == v@.subrange(start as int, to as int),
            s == v@.subrange(from as int, to as int),
            s.len() > 0,
            (start == from + 1 && (s[0] == '+' || s[0] == '-') && d == s.drop_first() && (negative <==> s[0] == '-'))
                || (start == from && !(s[0] == '+' || s[0] == '-') && d == s),
            all_digits(v@.subrange(start as int, i as int)),
            value == digits_value(v@.subrange(start as int, i as int)),
            0 <= value < 10000,
        decreases to - i,
    {
        let c = v[i];
        if !('0' <= c && c <= '9') {
            assert(!all_digits(d)) by {
                assert(d[i - start] == c);
            }
            return None;
        }
        proof {
            let p = v@.subrange(start as int, i + 1);
            assert(p.drop_last() =~= v@.subrange(start as int, i as int));
            assert(all_digits(p)) by {
                assert forall|k: int| 0 <= k < p.len() implies is_digit(#[trigger] p[k]) by {
                    if k < p.len() - 1 {
                        assert(p[k] == v@.subrange(start as int, i as int)[k]);
                    }
                }
            }
            lemma_digits_bound(p);
        }
        value = 10 * value + (c as i32 - '0' as i32);
        i = i + 1;
    }
    assert(v@.subrange(start as int, i as int) =~= d);
    if negative { Some(-value) } else { Some(value) }
}

/// The offset of a label in seconds east of UTC: `+0800`, `-05:30` and the
/// like within a day of UTC, or eight hours for the target region's zone
/// names; `None` for anything else.
pub fn parse_timezone_offset(timezone: &str) -> (r: Option<i32>)
    ensures
        match offset_seconds(timezone@) {
            Some(secs) => r == Some(secs as i32),
            None => r is None,
        },
{
    let tz = chars_of(timezone);
    let numeric = numeric_offset_of(&tz);
    match numeric {
        Some(secs) => {
            if -86400 < secs && secs < 86400 { Some(secs) } else { None }
        },
        None => {
            let cst = vec!['C', 'S', 'T'];
            let shanghai = vec!['A', 's', 'i', 'a', '/', 'S', 'h', 'a', 'n', 'g', 'h', 'a', 'i'];
            let beijing = vec!['A', 's', 'i', 'a', '/', 'B', 'e', 'i', 'j', 'i', 'n', 'g'];
            if same_chars(&tz, &cst) || same_chars(&tz, &shanghai) || same_chars(&tz, &beijing) {
                assert(named_target_zone(tz@)) by {
                    assert(cst@ =~= seq!['C', 'S', 'T']);
                    assert(shanghai@ =~= seq!['A', 's', 'i', 'a', '/', 'S', 'h', 'a', 'n', 'g', 'h', 'a', 'i']);
                    assert(beijing@ =~= seq!['A', 's', 'i', 'a', '/', 'B', 'e', 'i', 'j', 'i', 'n', 'g']);
                }
                Some(8 * 3600)
            } else {
                assert(!named_target_zone(tz@)) by {
                    assert(cst@ =~= seq!['C', 'S', 'T']);
                    assert(shanghai@ =~= seq!['A', 's', 'i', 'a', '/', 'S', 'h', 'a', 'n', 'g', 'h', 'a', 'i']);
                    assert(beijing@ =~= seq!['A', 's', 'i', 'a', '/', 'B', 'e', 'i', 'j', 'i', 'n', 'g']);
                }
                None
            }
        },
    }
}

fn same_chars(a: &Vec<char>, b: &Vec<char>) -> (r: bool)
    ensures
        r == (a@ == b@),
{
    if a.len() != b.len() {
        return false;
    }
    let mut i: usize = 0;
    while i < a.len()
        invariant
            a@.len() == b@.len(),
            i <= a@.len(),
            forall|k: int| 0 <= k < i ==> a@[k] == b@[k],
        decreases a@.len() - i,
    {
        if a[i] != b[i] {
            return false;
        }
        i = i + 1;
    }
    assert(a@ =~= b@);
    true
}

fn numeric_offset_of(tz: &Vec<char>) -> (r: Option<i32>)
    ensures
        match numeric_offset(tz@) {
            Some(secs) => r == Some(secs as i32) && i32::MIN <= secs <= i32::MAX,
            None => r is None,
        },
{
    if tz.len() == 0 || !(tz[0] == '+' || tz[0] == '-') {
        return None;
    }
    let sign: i32 = if tz[0] == '+' { 1 } else { -1 };
    let mut k: usize = 0;
    assert(tz@.skip(0) =~= tz@);
    while k < tz.len() && (tz[k] == '+' || tz[k] == '-')
        invariant
            k <= tz@.len(),
            leading_signs(tz@) == k + leading_signs(tz@.skip(k as int)),
        decreases tz@.len() - k,
    {
        assert(tz@.skip(k as int).drop_first() =~= tz@.skip(k + 1));
        k = k + 1;
    }
    let n = tz.len() - k;
    let ghost t = tz@.skip(k as int);
    assert(leading_signs(tz@) == k);
    proof {
        assert(leading_signs(tz@.skip(k as int)) == 0);
    }
    if n == 4 {
        hhmm_offset(tz, k, sign)
    } else if n == 5 {
        colon_offset(tz, k, sign)
    } else {
        None
    }
}

fn hhmm_offset(tz: &Vec<char>, k: usize, sign: i32) -> (r: Option<i32>)
    requires
        k + 4 == tz@.len(),
        sign == 1 || sign == -1,
    ensures
        ({
            let t = tz@.skip(k as int);
            if int_of(t.take(2)) is Some && int_of(t.subrange(2, 4)) is Some {
                r == Some(signed_seconds(sign as int, int_of(t.take(2))->0, int_of(t.subrange(2, 4))->0) as i32)
                    && i32::MIN <= signed_seconds(sign as int, int_of(t.take(2))->0, int_of(t.subrange(2, 4))->0) <= i32::MAX
            } else {
                r is None
            }
        }),
{
    let ghost t = tz@.skip(k as int);
    let h = small_int(tz, k, tz.len() - 2);
    let m = small_int(tz, tz.len() - 2, tz.len());
    assert(tz@.subrange(k as int, k + 2) =~= t.take(2));
    assert(tz@.subrange(k + 2, k + 4) =~= t.subrange(2, 4));
    if let (Some(h), Some(m)) = (h, m) {
        assert(-10000 * 3660 <= h * 3600 + m * 60 <= 10000 * 3660) by (nonlinear_arith)
            requires -10000 < h < 10000, -10000 < m < 10000;
        Some(sign * (h * 3600 + m * 60))
    } else {
        None
    }
}

fn colon_offset(tz: &Vec<char>, k: usize, sign: i32) -> (r: Option<i32>)
    requires
        k + 5 == tz@.len(),
        sign == 1 || sign == -1,
    ensures
        ({
            let t = tz@.skip(k as int);
            let parts = split_on(t, ':');
            if parts.len() == 2 && int_of(parts[0]) is Some && int_of(parts[1]) is Some {
                r == Some(signed_seconds(sign as int, int_of(parts[0])->0, int_of(parts[1])->0) as i32)
                    && i32::MIN <= signed_seconds(sign as int, int_of(parts[0])->0, int_of(parts[1])->0) <= i32::MAX
            } else {
                r is None
            }
        }),
{
    let ghost t = tz@.skip(k as int);
    let parts = crate::text::split_chars(tz, k, tz.len(), ':');
    assert(tz@.subrange(k as int, tz@.len() as int) =~= t);
    if parts.len() != 2 {
        return None;
    }
    let a = &parts[0];
    let b = &parts[1];
    proof {
        lemma_split_total(t, ':');
    }
    assert(a@ == split_on(t, ':')[0]);
    assert(b@ == split_on(t, ':')[1]);
    let h = small_int(a, 0, a.len());
    let m = small_int(b, 0, b.len());
    assert(a@.subrange(0, a@.len() as int) =~= a@);
    assert(b@.subrange(0, b@.len() as int) =~= b@);
    if let (Some(h), Some(m)) = (h, m) {
        assert(-10000 * 3660 <= h * 3600 + m * 60 <= 10000 * 3660) by (nonlinear_arith)
            requires -10000 < h < 10000, -10000 < m < 10000;
        Some(sign * (h * 3600 + m * 60))
    } else {
        None
    }
}

proof fn lemma_split_total(s: Seq<char>, sep: char)
    ensures
        split_on(s, sep).len() >= 1,
        split_on(s, sep).len() == 1 ==> split_on(s, sep)[0].len() == s.len(),
        split_on(s, sep).len() == 2 ==> split_on(s, sep)[0].len() + split_on(s, sep)[1].len() + 1 == s.len(),
    decreases s.len(),
{
    crate::text::lemma_split_on_nonempty(s, sep);
    if s.len() > 0 {
        lemma_split_total(s.drop_last(), sep);
        crate::text::lemma_split_on_nonempty(s.drop_last(), sep);
    }
}

} // verus!
