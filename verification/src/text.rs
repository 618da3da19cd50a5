//! Numbers as they are written into messages.

use vstd::prelude::*;
use crate::decimal::{
    all_digits, decimal_magnitude, decimal_micro, digit, digits_value, fraction_part, is_decimal,
    is_digit, millionths, negative, place, point_from, unsigned_part, whole_part,
};
use crate::fault::KeyError;
use crate::units::UNIT_MAX;

verus! {

/// The ASCII digit for a value from zero to nine.
pub open spec fn digit_char(d: int) -> char {
    (d + 48) as char
}

/// A natural number in decimal, without leading zeros.
pub open spec fn natural_text(n: int) -> Seq<char>
    decreases n,
{
    if n < 10 {
        seq![digit_char(n)]
    } else {
        natural_text(n / 10).push(digit_char(n % 10))
    }
}

/// A number below a million as six decimal digits.
pub open spec fn six_digits(n: int) -> Seq<char> {
    seq![
        digit_char(n / 100_000 % 10),
        digit_char(n / 10_000 % 10),
        digit_char(n / 1_000 % 10),
        digit_char(n / 100 % 10),
        digit_char(n / 10 % 10),
        digit_char(n % 10),
    ]
}

/// A count of millionths as a decimal number with six digits after the
/// point, with a minus sign if it is negative.
pub open spec fn micro_text(v: int) -> Seq<char> {
    let m = if v < 0 { -v } else { v };
    let sign = if v < 0 { seq!['-'] } else { Seq::<char>::empty() };
    sign + natural_text(m / 1_000_000) + seq!['.'] + six_digits(m % 1_000_000)
}

/// The quotient `v / d` rounded towards zero, for a positive divisor.
pub open spec fn truncated(v: int, d: int) -> int {
    if v >= 0 {
        v / d
    } else {
        -((-v) / d)
    }
}

/// Calls `String::push`, which appends one character.
#[verifier::external_body]
pub(crate) fn push_char(s: &mut String, c: char)
    ensures
        final(s)@ == old(s)@.push(c),
{
    s.push(c)
}

/// The ASCII digit for a value from zero to nine.
fn digit_of(d: u8) -> (c: char)
    requires
        d < 10,
    ensures
        c == digit_char(d as int),
{
    (d + 48) as char
}

/// Appends a natural number in decimal.
pub fn push_natural(s: &mut String, n: u64)
    ensures
        final(s)@ == old(s)@ + natural_text(n as int),
{
    let ghost before = s@;
    let mut digits: Vec<char> = Vec::new();
    let mut rest: u64 = n;
    // The digits from the last to the second.
    while rest >= 10
        invariant
            natural_text(n as int) == natural_text(rest as int) + Seq::new(
                digits@.len(),
                |i: int| digits@[digits@.len() - 1 - i],
            ),
        decreases rest,
    {
        let ghost old_digits = digits@;
        let ghost old_tail = Seq::new(old_digits.len(), |i: int| old_digits[old_digits.len() - 1 - i]);
        let d: u8 = (rest % 10) as u8;
        digits.push(digit_of(d));
        proof {
            let tail = Seq::new(digits@.len(), |i: int| digits@[digits@.len() - 1 - i]);
            assert(tail =~= seq![digit_char(d as int)] + old_tail);
            assert(natural_text(rest as int) == natural_text(rest as int / 10).push(
                digit_char(d as int),
            ));
            assert(natural_text(rest as int / 10).push(digit_char(d as int)) + old_tail
                =~= natural_text(rest as int / 10) + tail);
        }
        rest = rest / 10;
    }
    push_char(s, digit_of(rest as u8));
    let ghost tail = Seq::new(digits@.len(), |i: int| digits@[digits@.len() - 1 - i]);
    let mut k: usize = digits.len();
    while k > 0
        invariant
            k <= digits@.len(),
            tail == Seq::new(digits@.len(), |i: int| digits@[digits@.len() - 1 - i]),
            s@ == before + natural_text(rest as int) + tail.take(digits@.len() - k),
        decreases k,
    {
        k = k - 1;
        push_char(s, digits[k]);
        proof {
            assert(tail.take(digits@.len() - k) =~= tail.take(digits@.len() - k - 1).push(
                digits@[k as int],
            ));
            assert(s@ =~= before + natural_text(rest as int) + tail.take(digits@.len() - k));
        }
    }
    proof {
        assert(tail.take(digits@.len() as int) =~= tail);
        assert(s@ =~= before + natural_text(n as int));
    }
}

/// Appends a count of millionths as a decimal number.
pub fn push_micro(s: &mut String, v: i64)
    ensures
        final(s)@ == old(s)@ + micro_text(v as int),
{
    let ghost before = s@;
    let m: u64 = if v < 0 {
        (-(v as i128)) as u64
    } else {
        v as u64
    };
    if v < 0 {
        push_char(s, '-');
    }
    push_natural(s, m / 1_000_000);
    push_char(s, '.');
    let f: u64 = m % 1_000_000;
    push_char(s, digit_of((f / 100_000 % 10) as u8));
    push_char(s, digit_of((f / 10_000 % 10) as u8));
    push_char(s, digit_of((f / 1_000 % 10) as u8));
    push_char(s, digit_of((f / 100 % 10) as u8));
    push_char(s, digit_of((f / 10 % 10) as u8));
    push_char(s, digit_of((f % 10) as u8));
    proof {
        assert(s@ =~= before + micro_text(v as int));
    }
}

/// A digit's character has the digit's value.
proof fn lemma_digit_char(d: int)
    requires
        0 <= d <= 9,
    ensures
        is_digit(digit_char(d)),
        digit(digit_char(d)) == d,
        digit_char(d) != '.',
        digit_char(d) != '+',
        digit_char(d) != '-',
{
}

/// A natural number is written in digits only, and they write the number.
pub proof fn lemma_natural_text(n: int)
    requires
        n >= 0,
    ensures
        natural_text(n).len() >= 1,
        all_digits(natural_text(n)),
        digits_value(natural_text(n)) == n,
    decreases n,
{
    if n < 10 {
        lemma_digit_char(n);
        assert(natural_text(n).drop_last() =~= Seq::<char>::empty());
        assert(digits_value(Seq::<char>::empty()) == 0);
        assert(digits_value(natural_text(n)) == digits_value(natural_text(n).drop_last()) * 10
            + digit(natural_text(n).last()));
    } else {
        lemma_natural_text(n / 10);
        lemma_digit_char(n % 10);
        let front = natural_text(n / 10);
        assert(natural_text(n).drop_last() =~= front);
        assert(natural_text(n).last() == digit_char(n % 10));
        assert(digits_value(natural_text(n)) == digits_value(front) * 10 + digit(
            digit_char(n % 10),
        ));
        assert forall|i: int| 0 <= i < natural_text(n).len() implies is_digit(
            #[trigger] natural_text(n)[i],
        ) by {
            if i < front.len() {
                assert(natural_text(n)[i] == front[i]);
            }
        }
    }
}

/// A number below a million is the sum of its six decimal places.
proof fn lemma_six_places(n: int)
    requires
        0 <= n < 1_000_000,
    ensures
        n == (n / 100_000 % 10) * 100_000 + (n / 10_000 % 10) * 10_000 + (n / 1_000 % 10) * 1_000
            + (n / 100 % 10) * 100 + (n / 10 % 10) * 10 + n % 10,
        0 <= n / 100_000 % 10 <= 9,
        0 <= n / 10_000 % 10 <= 9,
        0 <= n / 1_000 % 10 <= 9,
        0 <= n / 100 % 10 <= 9,
        0 <= n / 10 % 10 <= 9,
        0 <= n % 10 <= 9,
{
    let q1 = n / 10;
    let q2 = n / 100;
    let q3 = n / 1_000;
    let q4 = n / 10_000;
    let q5 = n / 100_000;
    assert(q2 == q1 / 10);
    assert(q3 == q2 / 10);
    assert(q4 == q3 / 10);
    assert(q5 == q4 / 10);
    assert(q5 < 10);
}

/// Six digits write the number below a million that they were made from.
pub proof fn lemma_six_digits(n: int)
    requires
        0 <= n < 1_000_000,
    ensures
        all_digits(six_digits(n)),
        millionths(six_digits(n)) == n,
{
    lemma_six_places(n);
    lemma_digit_char(n / 100_000 % 10);
    lemma_digit_char(n / 10_000 % 10);
    lemma_digit_char(n / 1_000 % 10);
    lemma_digit_char(n / 100 % 10);
    lemma_digit_char(n / 10 % 10);
    lemma_digit_char(n % 10);
    let s = six_digits(n);
    assert(place(s, 0) == n / 100_000 % 10);
    assert(place(s, 1) == n / 10_000 % 10);
    assert(place(s, 2) == n / 1_000 % 10);
    assert(place(s, 3) == n / 100 % 10);
    assert(place(s, 4) == n / 10 % 10);
    assert(place(s, 5) == n % 10);
}

/// Where digits are followed by a point, that is the first point.
proof fn lemma_point_after_digits(s: Seq<char>, k: int, i: int)
    requires
        0 <= i <= k < s.len(),
        forall|j: int| 0 <= j < k ==> is_digit(#[trigger] s[j]),
        s[k] == '.',
    ensures
        point_from(s, i) == k,
    decreases k - i,
{
    if i < k {
        assert(is_digit(s[i]));
        lemma_point_after_digits(s, k, i + 1);
    }
}

/// What is written is read back the same: a count of millionths within
/// the represented range, written as a decimal number, reads as itself.
pub proof fn lemma_written_is_read(v: int)
    requires
        -UNIT_MAX <= v <= UNIT_MAX,
    ensures
        decimal_micro(micro_text(v)) == Ok::<i64, KeyError>(v as i64),
{
    let m = if v < 0 { -v } else { v };
    let whole = natural_text(m / 1_000_000);
    let fraction = six_digits(m % 1_000_000);
    let body = whole + seq!['.'] + fraction;
    let s = micro_text(v);
    lemma_natural_text(m / 1_000_000);
    lemma_six_digits(m % 1_000_000);
    if v < 0 {
        assert(s =~= seq!['-'] + body);
        assert(s[0] == '-');
        assert(unsigned_part(s) =~= body);
    } else {
        assert(s =~= body);
        assert(s[0] == whole[0]);
        assert(is_digit(whole[0]));
        assert(unsigned_part(s) =~= body);
    }
    assert(negative(s) == (v < 0));
    let k = whole.len() as int;
    assert forall|j: int| 0 <= j < k implies is_digit(#[trigger] body[j]) by {
        assert(body[j] == whole[j]);
    }
    assert(body[k] == '.');
    lemma_point_after_digits(body, k, 0);
    assert(whole_part(body) =~= whole);
    assert(fraction_part(body) =~= fraction);
    assert(is_decimal(s));
    assert(decimal_magnitude(s) == m);
}

} // verus!
