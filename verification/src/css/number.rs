use crate::text::decimal_digit;
use crate::units::{clamp, UNITS_PER_PX};
use vstd::prelude::*;

verus! {

/// The number that the digit `c` stands for.
pub open spec fn digit_value(c: char) -> int {
    c as int - '0' as int
}

/// The number that a run of digits stands for in base ten; zero for no digits.
pub open spec fn digits_value(s: Seq<char>) -> int
    decreases s.len(),
{
    if s.len() == 0 {
        0
    } else {
        digits_value(s.drop_last()) * 10 + digit_value(s.last())
    }
}

/// Whether `s` consists of digits only.
pub open spec fn all_digits(s: Seq<char>) -> bool {
    forall|i: int| 0 <= i < s.len() ==> decimal_digit(#[trigger] s[i])
}

/// The place of the first `.` in `s`; the length of `s` if it has none.
pub open spec fn first_dot(s: Seq<char>) -> int
    decreases s.len(),
{
    if s.len() == 0 {
        0
    } else if first_dot(s.drop_last()) < s.len() - 1 {
        first_dot(s.drop_last())
    } else if s.last() == '.' {
        s.len() - 1
    } else {
        s.len() as int
    }
}

/// The thousandths that the digits `frac` behind a decimal point stand for,
/// digits behind the third left out.
pub open spec fn thousandths(frac: Seq<char>) -> int {
    (if frac.len() > 0 { digit_value(frac[0]) * 100 } else { 0 })
        + (if frac.len() > 1 { digit_value(frac[1]) * 10 } else { 0 })
        + (if frac.len() > 2 { digit_value(frac[2]) } else { 0 })
}

/// The part of `text` behind its first `.`; empty if it has none.
pub open spec fn fraction_of(text: Seq<char>) -> Seq<char> {
    if first_dot(text) < text.len() {
        text.subrange(first_dot(text) + 1, text.len() as int)
    } else {
        Seq::empty()
    }
}

/// Whether `text` is a decimal number: digits, with at most one `.` before,
/// among or behind them, and at least one digit.
pub open spec fn is_decimal(text: Seq<char>) -> bool {
    &&& all_digits(text.subrange(0, first_dot(text)))
    &&& all_digits(fraction_of(text))
    &&& first_dot(text) + fraction_of(text).len() > 0
}

/// The length in layout units that `text` stands for when read as a number of
/// pixels: for a decimal number its value in thousandths, cut off behind the
/// third decimal place and bounded by the range of `i64`; zero for any other text.
pub open spec fn decimal_units(text: Seq<char>) -> int {
    if is_decimal(text) {
        clamp(
            digits_value(text.subrange(0, first_dot(text))) * UNITS_PER_PX + thousandths(
                fraction_of(text),
            ),
        )
    } else {
        0
    }
}

/// The place of the first `.` lies within the text or at its end; no `.`
/// stands before it, and one stands at it unless it is the end.
pub proof fn lemma_first_dot(s: Seq<char>)
    ensures
        0 <= first_dot(s) <= s.len(),
        forall|i: int| 0 <= i < first_dot(s) ==> s[i] != '.',
        first_dot(s) < s.len() ==> s[first_dot(s)] == '.',
    decreases s.len(),
{
    if s.len() > 0 {
        lemma_first_dot(s.drop_last());
        let d = first_dot(s.drop_last());
        assert forall|i: int| 0 <= i < first_dot(s) implies s[i] != '.' by {
            if i < s.len() - 1 {
                assert(s.drop_last()[i] == s[i]);
            }
        }
        if d < s.len() - 1 {
            assert(s.drop_last()[d] == s[d]);
        }
    }
}

/// A run of digits stands for a number that is not negative.
pub proof fn lemma_digits_value_nonnegative(s: Seq<char>)
    requires
        all_digits(s),
    ensures
        digits_value(s) >= 0,
    decreases s.len(),
{
    if s.len() > 0 {
        assert forall|i: int| 0 <= i < s.len() - 1 implies decimal_digit(
            #[trigger] s.drop_last()[i],
        ) by {
            assert(s.drop_last()[i] == s[i]);
        }
        lemma_digits_value_nonnegative(s.drop_last());
        assert(decimal_digit(s[s.len() - 1]));
    }
}

/// The number that the digit `c` stands for.
pub fn digit_of(c: char) -> (r: i64)
    requires
        decimal_digit(c),
    ensures
        r == digit_value(c),
        0 <= r <= 9,
{
    let code: u32 = c as u32;
    (code - 48) as i64
}

/// The most that the whole part of a number is counted up to: from here on
/// its thousandths are beyond the range of `i64`.
pub const WHOLE_CAP: i64 = 10_000_000_000_000_000;

/// The length in layout units that the characters of `chars` from `from` up
/// to, not including, `to` stand for when read as a number of pixels.
#[verifier::rlimit(40)]
pub fn parse_decimal(chars: &Vec<char>, from: usize, to: usize) -> (r: i64)
    requires
        from <= to <= chars.len(),
    ensures
        r == decimal_units(chars@.subrange(from as int, to as int)),
{
    let ghost text = chars@.subrange(from as int, to as int);
    let mut d: usize = from;
    while d < to && chars[d] != '.'
        invariant
            from <= d <= to <= chars.len(),
            forall|i: int| from <= i < d ==> chars@[i] != '.',
        decreases to - d,
    {
        d += 1;
    }
    proof {
        lemma_first_dot(text);
        let fd = first_dot(text);
        if fd < d - from {
            assert(text[fd] == chars@[from + fd]);
        }
        if d - from < fd {
            assert(text[d - from] == chars@[d as int]);
        }
        assert(fd == d - from);
    }
    let ghost whole = text.subrange(0, d - from);
    let ghost frac = fraction_of(text);
    let mut ok = true;
    let mut acc: i64 = 0;
    let mut i: usize = from;
    assert(whole.subrange(0, 0) =~= Seq::<char>::empty());
    while i < d
        invariant
            from <= i <= d <= to <= chars.len(),
            whole == chars@.subrange(from as int, d as int),
            ok <==> all_digits(whole.subrange(0, i - from)),
            0 <= acc <= WHOLE_CAP,
            ok ==> acc == if digits_value(whole.subrange(0, i - from)) < WHOLE_CAP {
                digits_value(whole.subrange(0, i - from))
            } else {
                WHOLE_CAP as int
            },
        decreases d - i,
    {
        let c = chars[i];
        let ghost seen = whole.subrange(0, i - from);
        let ghost next = whole.subrange(0, i - from + 1);
        assert(next.drop_last() =~= seen);
        assert(next.last() == c);
        if '0' <= c && c <= '9' {
            if ok {
                proof {
                    lemma_digits_value_nonnegative(seen);
                }
                let grown = acc * 10 + digit_of(c);
                acc = if grown < WHOLE_CAP { grown } else { WHOLE_CAP };
                assert forall|k: int| 0 <= k < next.len() implies decimal_digit(
                    #[trigger] next[k],
                ) by {
                    if k < seen.len() {
                        assert(seen[k] == next[k]);
                    }
                }
            } else {
                assert(!all_digits(next)) by {
                    if all_digits(next) {
                        assert forall|k: int| 0 <= k < seen.len() implies decimal_digit(
                            #[trigger] seen[k],
                        ) by {
                            assert(seen[k] == next[k]);
                        }
                    }
                }
            }
        } else {
            ok = false;
            assert(!decimal_digit(next[next.len() - 1]));
        }
        i += 1;
    }
    assert(whole.subrange(0, d - from) =~= whole);
    let start: usize = if d < to { d + 1 } else { to };
    assert(frac =~= chars@.subrange(start as int, to as int));
    let mut j: usize = start;
    while j < to
        invariant
            start <= j <= to <= chars.len(),
            frac == chars@.subrange(start as int, to as int),
            ok <==> all_digits(whole) && all_digits(frac.subrange(0, j - start)),
        decreases to - j,
    {
        let c = chars[j];
        let ghost seen = frac.subrange(0, j - start);
        let ghost next = frac.subrange(0, j - start + 1);
        if '0' <= c && c <= '9' {
            proof {
                if all_digits(seen) {
                    assert forall|k: int| 0 <= k < next.len() implies decimal_digit(
                        #[trigger] next[k],
                    ) by {
                        if k < seen.len() {
                            assert(seen[k] == next[k]);
                        }
                    }
                } else {
                    if all_digits(next) {
                        assert forall|k: int| 0 <= k < seen.len() implies decimal_digit(
                            #[trigger] seen[k],
                        ) by {
                            assert(seen[k] == next[k]);
                        }
                    }
                }
            }
        } else {
            ok = false;
            assert(next[next.len() - 1] == c);
            assert(!all_digits(next));
        }
        j += 1;
    }
    assert(frac.subrange(0, to - start) =~= frac);
    if !ok || (d == from && start == to) {
        return 0;
    }
    let mut th: i64 = 0;
    if to - start > 0 {
        assert(decimal_digit(frac[0]));
        th = th + digit_of(chars[start]) * 100;
    }
    if to - start > 1 {
        assert(decimal_digit(frac[1]));
        th = th + digit_of(chars[start + 1]) * 10;
    }
    if to - start > 2 {
        assert(decimal_digit(frac[2]));
        th = th + digit_of(chars[start + 2]);
    }
    proof {
        lemma_digits_value_nonnegative(whole);
    }
    let exact: i128 = (acc as i128) * (UNITS_PER_PX as i128) + (th as i128);
    if exact > i64::MAX as i128 {
        i64::MAX
    } else {
        exact as i64
    }
}

} // verus!
