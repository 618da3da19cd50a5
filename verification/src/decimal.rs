//! Numbers as they are written in the configuration file.
//!
//! A decimal number is an optional sign, digits, and optionally a point
//! and more digits, with at least one digit in all. It is read as a count
//! of millionths; digits beyond the sixth after the point are dropped.
//! Exponents and the words for infinity and not-a-number are not numbers.

use vstd::prelude::*;
use vstd::string::StrSliceExecFns;
use crate::fault::KeyError;
use crate::units::UNIT_MAX;

verus! {

/// Whether `c` is one of the ten ASCII digits.
pub open spec fn is_digit(c: char) -> bool {
    '0' <= c <= '9'
}

/// The value of an ASCII digit.
pub open spec fn digit(c: char) -> int {
    c as int - '0' as int
}

/// Whether all of `s` is ASCII digits.
pub open spec fn all_digits(s: Seq<char>) -> bool {
    forall|i: int| 0 <= i < s.len() ==> is_digit(#[trigger] s[i])
}

/// The number that a run of digits writes, most significant first. Zero
/// for no digits.
pub open spec fn digits_value(s: Seq<char>) -> int
    decreases s.len(),
{
    if s.len() == 0 {
        0
    } else {
        digits_value(s.drop_last()) * 10 + digit(s.last())
    }
}

/// Whether `s` starts with a sign.
pub open spec fn signed(s: Seq<char>) -> bool {
    s.len() > 0 && (s[0] == '+' || s[0] == '-')
}

/// Whether `s` starts with a minus sign.
pub open spec fn negative(s: Seq<char>) -> bool {
    s.len() > 0 && s[0] == '-'
}

/// `s` without its sign, if it has one.
pub open spec fn unsigned_part(s: Seq<char>) -> Seq<char> {
    if signed(s) {
        s.skip(1)
    } else {
        s
    }
}

/// The integer that `s` writes in decimal: an optional sign and at least
/// one digit, nothing else. `None` where `s` is not of that form.
pub open spec fn integer_text(s: Seq<char>) -> Option<int> {
    let body = unsigned_part(s);
    if body.len() == 0 || !all_digits(body) {
        None
    } else if negative(s) {
        Some(-digits_value(body))
    } else {
        Some(digits_value(body))
    }
}

/// The index of the first point in `s` at or after `i`, or the length of
/// `s` if there is none.
pub open spec fn point_from(s: Seq<char>, i: int) -> int
    decreases s.len() - i,
{
    if i < 0 || i >= s.len() {
        s.len() as int
    } else if s[i] == '.' {
        i
    } else {
        point_from(s, i + 1)
    }
}

/// The digit at place `i` after the point, zero beyond the digits written.
pub open spec fn place(fraction: Seq<char>, i: int) -> int {
    if 0 <= i < fraction.len() {
        digit(fraction[i])
    } else {
        0
    }
}

/// The first six digits after the point as a count of millionths.
pub open spec fn millionths(fraction: Seq<char>) -> int {
    place(fraction, 0) * 100_000 + place(fraction, 1) * 10_000 + place(fraction, 2) * 1_000
        + place(fraction, 3) * 100 + place(fraction, 4) * 10 + place(fraction, 5)
}

/// The digits before the point of an unsigned decimal.
pub open spec fn whole_part(body: Seq<char>) -> Seq<char> {
    body.take(point_from(body, 0))
}

/// The digits after the point of an unsigned decimal, none if it has no point.
pub open spec fn fraction_part(body: Seq<char>) -> Seq<char> {
    let point = point_from(body, 0);
    if point < body.len() {
        body.skip(point + 1)
    } else {
        Seq::empty()
    }
}

/// Whether `s` writes a decimal number.
pub open spec fn is_decimal(s: Seq<char>) -> bool {
    let body = unsigned_part(s);
    &&& all_digits(whole_part(body))
    &&& all_digits(fraction_part(body))
    &&& whole_part(body).len() + fraction_part(body).len() >= 1
}

/// The magnitude of the decimal that `s` writes, in millionths.
pub open spec fn decimal_magnitude(s: Seq<char>) -> int {
    let body = unsigned_part(s);
    digits_value(whole_part(body)) * 1_000_000 + millionths(fraction_part(body))
}

/// What reading `s` as a decimal gives: its value in millionths, or why
/// it has none. A magnitude above a million units is out of bounds.
pub open spec fn decimal_micro(s: Seq<char>) -> Result<i64, KeyError> {
    if !is_decimal(s) {
        Err(KeyError::Invalid)
    } else if decimal_magnitude(s) > UNIT_MAX {
        Err(KeyError::OutOfBounds)
    } else if negative(s) {
        Ok((-decimal_magnitude(s)) as i64)
    } else {
        Ok(decimal_magnitude(s) as i64)
    }
}

/// A decimal that was read is within a million units either way.
pub proof fn lemma_decimal_range(s: Seq<char>)
    ensures
        decimal_micro(s) matches Ok(v) ==> -UNIT_MAX <= v <= UNIT_MAX,
{
    if is_decimal(s) {
        let body = unsigned_part(s);
        lemma_digits_nonnegative(whole_part(body));
        let f = fraction_part(body);
        assert forall|i: int| 0 <= i < 6 implies 0 <= #[trigger] place(f, i) <= 9 by {
            if i < f.len() {
                assert(is_digit(f[i]));
            }
        }
    }
}

/// A text that holds a character other than a digit, a sign or a point
/// is not a decimal. The words for infinity and not-a-number are such
/// texts, however they are spelled.
pub proof fn lemma_stray_character(s: Seq<char>, i: int)
    requires
        0 <= i < s.len(),
        !is_digit(s[i]),
        s[i] != '.',
        s[i] != '+',
        s[i] != '-',
    ensures
        decimal_micro(s) == Err::<i64, KeyError>(KeyError::Invalid),
{
    let body = unsigned_part(s);
    let k = if signed(s) { i - 1 } else { i };
    assert(body[k] == s[i]);
    lemma_point_from_bounds(body, 0);
    lemma_point_is_point(body, 0);
    let point = point_from(body, 0);
    if k < point {
        assert(whole_part(body)[k] == body[k]);
    } else {
        assert(fraction_part(body)[k - point - 1] == body[k]);
    }
}

/// Where a first point is found, there is a point.
proof fn lemma_point_is_point(s: Seq<char>, i: int)
    requires
        0 <= i <= s.len(),
    ensures
        point_from(s, i) < s.len() ==> s[point_from(s, i)] == '.',
    decreases s.len() - i,
{
    if i < s.len() && s[i] != '.' {
        lemma_point_is_point(s, i + 1);
    }
}

/// Appending a digit multiplies the value by ten and adds the digit.
proof fn lemma_digits_push(s: Seq<char>, c: char)
    ensures
        digits_value(s.push(c)) == digits_value(s) * 10 + digit(c),
{
    assert(s.push(c).drop_last() =~= s);
}

/// A run of digits has a value that is not negative.
proof fn lemma_digits_nonnegative(s: Seq<char>)
    requires
        all_digits(s),
    ensures
        digits_value(s) >= 0,
    decreases s.len(),
{
    if s.len() > 0 {
        lemma_digits_nonnegative(s.drop_last());
    }
}

/// While no point has been seen, the first point lies at or after where
/// the search stands.
proof fn lemma_point_from_step(s: Seq<char>, i: int)
    requires
        0 <= i < s.len(),
        s[i] != '.',
    ensures
        point_from(s, i) == point_from(s, i + 1),
        point_from(s, i + 1) >= i + 1,
{
    lemma_point_from_bounds(s, i + 1);
}

/// The first point at or after `i` is not before `i` and not past the end.
proof fn lemma_point_from_bounds(s: Seq<char>, i: int)
    requires
        0 <= i <= s.len(),
    ensures
        i <= point_from(s, i) <= s.len(),
    decreases s.len() - i,
{
    if i < s.len() && s[i] != '.' {
        lemma_point_from_bounds(s, i + 1);
    }
}

/// Reads a decimal number as a count of millionths.
pub fn parse_decimal(text: &str) -> (r: Result<i64, KeyError>)
    ensures
        r == decimal_micro(text@),
{
    let n: usize = text.unicode_len();
    let ghost s = text@;
    let mut start: usize = 0;
    let mut minus: bool = false;
    if n > 0 {
        let first: char = text.get_char(0);
        if first == '+' || first == '-' {
            start = 1;
            minus = first == '-';
        }
    }
    let ghost body = unsigned_part(s);
    assert(body =~= s.skip(start as int));
    assert(minus == negative(s));

    // The digits before the point. `whole` is their value, held at the cap.
    let cap: i64 = 1_000_001;
    let mut whole: i64 = 0;
    let mut i: usize = start;
    let mut at_point: bool = false;
    while i < n
        invariant_except_break
            !at_point,
        invariant
            start <= i <= n,
            n == s.len(),
            s == text@,
            body == s.skip(start as int),
            body == unsigned_part(s),
            cap == 1_000_001,
            point_from(body, 0) == point_from(body, i - start),
            all_digits(body.take(i - start)),
            0 <= whole <= cap,
            whole == (if digits_value(body.take(i - start)) < cap {
                digits_value(body.take(i - start))
            } else {
                cap as int
            }),
        ensures
            start <= i <= n,
            at_point ==> i < n && body[i - start] == '.',
            !at_point ==> i == n,
            point_from(body, 0) == i - start,
            all_digits(body.take(i - start)),
            whole == (if digits_value(body.take(i - start)) < cap {
                digits_value(body.take(i - start))
            } else {
                cap as int
            }),
        decreases n - i,
    {
        let c: char = text.get_char(i);
        assert(c == body[i - start]);
        if c == '.' {
            at_point = true;
            break;
        }
        proof {
            lemma_point_from_step(body, i - start);
        }
        if !(c >= '0' && c <= '9') {
            proof {
                lemma_point_from_bounds(body, 0);
                assert(whole_part(body)[i - start] == c);
                assert(!is_digit(whole_part(body)[i - start]));
            }
            return Err(KeyError::Invalid);
        }
        let d: i64 = (c as u32 - '0' as u32) as i64;
        proof {
            let before = body.take(i - start);
            assert(body.take(i - start + 1) =~= before.push(c));
            lemma_digits_push(before, c);
            lemma_digits_nonnegative(before);
            assert forall|j: int| 0 <= j < before.push(c).len() implies is_digit(
                #[trigger] before.push(c)[j],
            ) by {
                if j < before.len() {
                    assert(before.push(c)[j] == before[j]);
                }
            }
        }
        whole = if whole * 10 + d < cap { whole * 10 + d } else { cap };
        i = i + 1;
    }
    proof {
        if !at_point {
            assert(point_from(body, (n - start) as int) == body.len());
        }
        assert(whole_part(body) == body.take(i - start));
    }
    let whole_len: usize = i - start;

    // The digits after the point. `part` is the value of the first six.
    let mut part: i64 = 0;
    let mut scale: i64 = 100_000;
    let mut count: usize = 0;
    if at_point {
        let from: usize = i + 1;
        let ghost fraction = body.skip(i - start + 1);
        assert(fraction_part(body) == fraction);
        let mut j: usize = from;
        while j < n
            invariant
                from <= j <= n,
                from == i + 1,
                start <= i < n,
                n == s.len(),
                s == text@,
                body == s.skip(start as int),
                body == unsigned_part(s),
                fraction == body.skip(i - start + 1),
                fraction == fraction_part(body),
                all_digits(whole_part(body)),
                count == j - from,
                all_digits(fraction.take(count as int)),
                scale == (if count == 0 {
                    100_000int
                } else if count == 1 {
                    10_000
                } else if count == 2 {
                    1_000
                } else if count == 3 {
                    100
                } else if count == 4 {
                    10
                } else if count == 5 {
                    1
                } else {
                    0
                }),
                0 <= part < 1_000_000,
                part == millionths(fraction.take(count as int)),
            decreases n - j,
        {
            let c: char = text.get_char(j);
            assert(c == fraction[count as int]);
            if !(c >= '0' && c <= '9') {
                proof {
                    assert(!is_digit(fraction[count as int]));
                }
                return Err(KeyError::Invalid);
            }
            let d: i64 = (c as u32 - '0' as u32) as i64;
            proof {
                let before = fraction.take(count as int);
                let now = fraction.take(count + 1);
                assert(now =~= before.push(c));
                assert forall|k: int| 0 <= k < now.len() implies is_digit(#[trigger] now[k]) by {
                    if k < before.len() {
                        assert(now[k] == before[k]);
                    }
                }
                assert forall|k: int| 0 <= k < 6 && k != count implies place(now, k) == place(
                    before,
                    k,
                ) by {
                    if k < before.len() {
                        assert(now[k] == before[k]);
                    }
                }
                assert(place(before, count as int) == 0);
                if count < 6 {
                    assert(place(now, count as int) == d);
                }
            }
            part = part + d * scale;
            scale = scale / 10;
            count = count + 1;
            j = j + 1;
        }
        proof {
            assert(fraction.take(count as int) =~= fraction);
        }
    } else {
        proof {
            assert(fraction_part(body) =~= Seq::<char>::empty());
        }
    }
    let ghost fraction = fraction_part(body);
    assert(count == fraction.len());
    assert(part == millionths(fraction));
    assert(all_digits(fraction));
    if whole_len + count == 0 {
        return Err(KeyError::Invalid);
    }
    assert(is_decimal(s));
    if whole > 1_000_000 || (whole == 1_000_000 && part > 0) {
        return Err(KeyError::OutOfBounds);
    }
    let magnitude: i64 = whole * 1_000_000 + part;
    assert(magnitude == decimal_magnitude(s));
    if minus {
        Ok(-magnitude)
    } else {
        Ok(magnitude)
    }
}

/// The integer that `s` writes, where it writes one that fits 64 bits
/// with a sign.
pub open spec fn integer_i64(s: Seq<char>) -> Option<i64> {
    match integer_text(s) {
        Some(v) => if i64::MIN <= v <= i64::MAX {
            Some(v as i64)
        } else {
            None
        },
        None => None,
    }
}

/// Reads a decimal integer: an optional sign and digits, nothing else.
pub fn parse_integer(text: &str) -> (r: Option<i64>)
    ensures
        r == integer_i64(text@),
{
    let n: usize = text.unicode_len();
    let ghost s = text@;
    let mut start: usize = 0;
    let mut minus: bool = false;
    if n > 0 {
        let first: char = text.get_char(0);
        if first == '+' || first == '-' {
            start = 1;
            minus = first == '-';
        }
    }
    let ghost body = unsigned_part(s);
    assert(body =~= s.skip(start as int));
    if start == n {
        return None;
    }
    let cap: i128 = 10_000_000_000_000_000_000;
    let mut value: i128 = 0;
    let mut i: usize = start;
    while i < n
        invariant
            start <= i <= n,
            n == s.len(),
            s == text@,
            body == s.skip(start as int),
            body == unsigned_part(s),
            cap == 10_000_000_000_000_000_000,
            all_digits(body.take(i - start)),
            0 <= value <= cap,
            value == (if digits_value(body.take(i - start)) < cap {
                digits_value(body.take(i - start))
            } else {
                cap as int
            }),
        decreases n - i,
    {
        let c: char = text.get_char(i);
        assert(c == body[i - start]);
        if !(c >= '0' && c <= '9') {
            proof {
                assert(!is_digit(body[i - start]));
            }
            return None;
        }
        let d: i128 = (c as u32 - '0' as u32) as i128;
        proof {
            let before = body.take(i - start);
            assert(body.take(i - start + 1) =~= before.push(c));
            lemma_digits_push(before, c);
            lemma_digits_nonnegative(before);
            assert forall|j: int| 0 <= j < before.push(c).len() implies is_digit(
                #[trigger] before.push(c)[j],
            ) by {
                if j < before.len() {
                    assert(before.push(c)[j] == before[j]);
                }
            }
        }
        value = if value * 10 + d < cap { value * 10 + d } else { cap };
        i = i + 1;
    }
    proof {
        assert(body.take(n - start) =~= body);
    }
    let signed_value: i128 = if minus { -value } else { value };
    if signed_value < -0x8000_0000_0000_0000 || signed_value > 0x7FFF_FFFF_FFFF_FFFF {
        None
    } else {
        Some(signed_value as i64)
    }
}

} // verus!
