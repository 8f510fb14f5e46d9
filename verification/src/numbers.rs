//! Decimal integers: a verified parser for the count field of a range
//! response line, and locale-grouped rendering of a count for reporting.

use vstd::prelude::*;

verus! {

/// ASCII decimal digits.
pub open spec fn is_digit(c: char) -> bool {
    '0' <= c && c <= '9'
}

/// The numeric value of a decimal digit.
pub open spec fn digit_val(c: char) -> int {
    c as int - 48
}

/// Non-empty strings of decimal digits.
pub open spec fn is_decimal(s: Seq<char>) -> bool {
    s.len() > 0 && forall|i: int| 0 <= i < s.len() ==> is_digit(s[i])
}

/// The number that a digit string denotes, most significant digit first.
pub open spec fn decimal_val(s: Seq<char>) -> int
    decreases s.len(),
{
    if s.len() == 0 {
        0
    } else {
        10 * decimal_val(s.drop_last()) + digit_val(s.last())
    }
}

/// What parsing `s` as a signed 32-bit decimal integer yields: an optional
/// leading sign followed by at least one digit, with the value in range.
pub open spec fn parsed_i32(s: Seq<char>) -> Option<int> {
    let digits = if s.len() > 0 && (s[0] == '+' || s[0] == '-') {
        s.drop_first()
    } else {
        s
    };
    if is_decimal(digits) {
        let v = if s.len() > 0 && s[0] == '-' {
            -decimal_val(digits)
        } else {
            decimal_val(digits)
        };
        if i32::MIN <= v <= i32::MAX {
            Some(v)
        } else {
            None
        }
    } else {
        None
    }
}

proof fn lemma_decimal_val_nonneg(s: Seq<char>)
    requires
        forall|i: int| 0 <= i < s.len() ==> is_digit(s[i]),
    ensures
        decimal_val(s) >= 0,
    decreases s.len(),
{
    if s.len() > 0 {
        lemma_decimal_val_nonneg(s.drop_last());
    }
}

proof fn lemma_decimal_val_prefix_le(s: Seq<char>, i: int)
    requires
        0 <= i <= s.len(),
        forall|j: int| 0 <= j < s.len() ==> is_digit(s[j]),
    ensures
        decimal_val(s.subrange(0, i)) <= decimal_val(s),
    decreases s.len() - i,
{
    if i == s.len() {
        assert(s.subrange(0, i) =~= s);
    } else {
        lemma_decimal_val_prefix_le(s.drop_last(), i);
        assert(s.drop_last().subrange(0, i) =~= s.subrange(0, i));
        lemma_decimal_val_nonneg(s.drop_last());
    }
}

fn digit_of(c: char) -> (r: Option<u32>)
    ensures
        match r {
            Some(v) => is_digit(c) && v == digit_val(c),
            None => !is_digit(c),
        },
{
    let v = c as u32;
    if 48 <= v && v <= 57 {
        Some(v - 48)
    } else {
        None
    }
}

/// Parses `s` as a decimal `i32` with an optional leading `+` or `-` sign,
/// returning `None` when `s` is not such a numeral or its value does not fit.
#[verifier::loop_isolation(false)]
pub fn parse_i32(s: &str) -> (r: Option<i32>)
    ensures
        match r {
            Some(v) => parsed_i32(s@) == Some(v as int),
            None => parsed_i32(s@) is None,
        },
{
    let n = s.unicode_len();
    let mut off: usize = 0;
    let mut neg = false;
    if n > 0 {
        let c0 = s.get_char(0);
        if c0 == '-' {
            neg = true;
            off = 1;
        } else if c0 == '+' {
            off = 1;
        }
    }
    let ghost digits = s@.subrange(off as int, n as int);
    proof {
        if off == 1 {
            assert(digits =~= s@.drop_first());
        } else {
            assert(digits =~= s@);
        }
    }
    if off >= n {
        return None;
    }
    let mut i: usize = off;
    let mut mag: u64 = 0;
    while i < n
        invariant
            off <= i <= n,
            n == s@.len(),
            off < n,
            digits == s@.subrange(off as int, n as int),
            mag == decimal_val(digits.subrange(0, i - off)),
            mag <= 0x8000_0000,
            forall|j: int| 0 <= j < i - off ==> is_digit(digits[j]),
        decreases n - i,
    {
        let c = s.get_char(i);
        match digit_of(c) {
            None => {
                proof {
                    assert(0 <= i - off < digits.len());
                    assert(!is_digit(digits[i - off]));
                    assert(!is_decimal(digits));
                }
                return None;
            },
            Some(d) => {
                let next = mag * 10 + (d as u64);
                proof {
                    assert(digits.subrange(0, i + 1 - off).drop_last() =~= digits.subrange(
                        0,
                        i - off,
                    ));
                    assert(digits.subrange(0, i + 1 - off).last() == c);
                }
                if next > 0x8000_0000 {
                    proof {
                        assert(decimal_val(digits.subrange(0, i + 1 - off)) == next);
                        if is_decimal(digits) {
                            lemma_decimal_val_prefix_le(digits, i + 1 - off);
                            assert(decimal_val(digits) >= next);
                        }
                        assert(parsed_i32(s@) is None);
                    }
                    return None;
                }
                mag = next;
            },
        }
        i = i + 1;
    }
    proof {
        assert(digits.subrange(0, n - off) =~= digits);
    }
    if neg {
        Some((-(mag as i64)) as i32)
    } else {
        if mag > 0x7FFF_FFFF {
            return None;
        }
        Some(mag as i32)
    }
}

/// The decimal rendering of a number with the thousands grouping of the
/// English locale, for example one comma between millions and thousands.
pub uninterp spec fn grouped_decimal_of(n: int) -> Seq<char>;

/// Relies on num-format's `ToFormattedString` impl for `i32` with
/// `Locale::en`: the rendering is a function of the number alone.
#[verifier::external_body]
pub(crate) fn format_grouped(n: i32) -> (r: String)
    ensures
        r@ == grouped_decimal_of(n as int),
{
    num_format::ToFormattedString::to_formatted_string(&n, &num_format::Locale::en)
}

} // verus!
