//! Decimal parsing and formatting. The parse-or-default functions mirror
//! the field-defaulting policy of the dialect: a field that is present
//! but fails integer parsing silently becomes the default.

use vstd::prelude::*;

use crate::text::push_char;
use crate::text::spec_digit_val;
use crate::text::spec_is_digit;

verus! {

// --- value of a digit string ---

/// The value of a string of decimal digits, most significant first.
pub open spec fn spec_digits_val(s: Seq<char>) -> int
    decreases s.len(),
{
    if s.len() == 0 {
        0
    } else {
        spec_digits_val(s.drop_last()) * 10 + spec_digit_val(s.last())
    }
}

pub proof fn lemma_digits_val_nonneg(s: Seq<char>)
    ensures
        spec_digits_val(s) >= 0,
    decreases s.len(),
{
    if s.len() > 0 {
        lemma_digits_val_nonneg(s.drop_last());
    }
}

/// A non-empty string of decimal digits.
pub open spec fn spec_all_digits(s: Seq<char>) -> bool {
    s.len() >= 1 && forall|i: int| 0 <= i < s.len() ==> spec_is_digit(s[i])
}

// --- parsing, Rust `FromStr` style: optional sign, then digits ---

/// The value `s` denotes as an unsigned 64-bit decimal, if it is one:
/// an optional leading `+`, then decimal digits, within range.
pub open spec fn spec_parse_u64(s: Seq<char>) -> Option<int> {
    let body = if s.len() >= 1 && s[0] == '+' {
        s.drop_first()
    } else {
        s
    };
    if spec_all_digits(body) && spec_digits_val(body) <= u64::MAX {
        Some(spec_digits_val(body))
    } else {
        None
    }
}

/// The value `s` denotes as a signed 32-bit decimal, if it is one: an
/// optional leading `+` or `-`, then decimal digits, within range.
pub open spec fn spec_parse_i32(s: Seq<char>) -> Option<int> {
    if s.len() >= 1 && s[0] == '-' {
        let body = s.drop_first();
        if spec_all_digits(body) && -spec_digits_val(body) >= i32::MIN {
            Some(-spec_digits_val(body))
        } else {
            None
        }
    } else {
        let body = if s.len() >= 1 && s[0] == '+' {
            s.drop_first()
        } else {
            s
        };
        if spec_all_digits(body) && spec_digits_val(body) <= i32::MAX {
            Some(spec_digits_val(body))
        } else {
            None
        }
    }
}

/// Parse as `i32`, or fall back to the default.
pub open spec fn spec_i32_or(s: Seq<char>, d: int) -> int {
    match spec_parse_i32(s) {
        Some(v) => v,
        None => d,
    }
}

/// Parse as `u64`, or fall back to the default.
pub open spec fn spec_u64_or(s: Seq<char>, d: int) -> int {
    match spec_parse_u64(s) {
        Some(v) => v,
        None => d,
    }
}

/// The magnitude of the digit string `s@.subrange(start, len)`, computed
/// left to right with saturation above `cap`: on return, `r` matches the
/// digit value exactly when that value is within `cap`, and the `bool`
/// says whether the value exceeded `cap`. Fails (returns `None`) on the
/// first non-digit character.
fn scan_digits(s: &str, start: usize, cap: u128) -> (r: Option<(u128, bool)>)
    requires
        start <= s@.len(),
        s@.len() <= usize::MAX,
        cap <= u64::MAX as u128 * 37,
    ensures
        ({
            let body = s@.subrange(start as int, s@.len() as int);
            match r {
                None => !spec_all_digits(body) || body.len() == 0,
                Some((mag, big)) => {
                    &&& spec_all_digits(body)
                    &&& (!big ==> mag as int == spec_digits_val(body) && mag <= cap)
                    &&& (big ==> spec_digits_val(body) > cap)
                },
            }
        }),
{
    let n = s.unicode_len();
    if start >= n {
        return None;
    }
    let mut mag: u128 = 0;
    let mut big = false;
    let mut i: usize = start;
    while i < n
        invariant
            start <= i <= n,
            n == s@.len(),
            cap <= u64::MAX as u128 * 37,
            forall|j: int| start <= j < i ==> spec_is_digit(s@[j]),
            !big ==> mag as int == spec_digits_val(s@.subrange(start as int, i as int)) && mag
                <= cap,
            big ==> spec_digits_val(s@.subrange(start as int, i as int)) > cap,
        decreases n - i,
    {
        let ghost pre = s@.subrange(start as int, i as int);
        let ghost ext = s@.subrange(start as int, i + 1 as int);
        proof {
            assert(ext.drop_last() =~= pre);
            assert(ext.last() == s@[i as int]);
        }
        let c = s.get_char(i);
        if !(c == '0' || c == '1' || c == '2' || c == '3' || c == '4' || c == '5' || c == '6' || c
            == '7' || c == '8' || c == '9') {
            return None;
        }
        let dv: u128 = crate::text::digit_val(c) as u128;
        if big {
            proof {
                lemma_digits_val_nonneg(pre);
                assert(spec_digits_val(ext) > cap);
            }
        } else {
            let next: u128 = mag * 10 + dv;
            if next > cap {
                big = true;
                proof {
                    assert(spec_digits_val(ext) > cap);
                }
            } else {
                mag = next;
            }
        }
        i += 1;
    }
    proof {
        assert(s@.subrange(start as int, n as int) =~= s@.subrange(start as int, s@.len() as int));
    }
    Some((mag, big))
}

/// Parse `s` as `i32` by Rust's rules, or return `d`.
pub fn parse_i32_or(s: &str, d: i32) -> (r: i32)
    ensures
        r as int == spec_i32_or(s@, d as int),
{
    let n = s.unicode_len();
    if n == 0 {
        return d;
    }
    let first = s.get_char(0);
    let neg = first == '-';
    let signed = neg || first == '+';
    let start: usize = if signed {
        1
    } else {
        0
    };
    let ghost body = if signed {
        s@.drop_first()
    } else {
        s@
    };
    proof {
        assert(body =~= s@.subrange(start as int, s@.len() as int));
    }
    match scan_digits(s, start, 0xFFFF_FFFF) {
        None => d,
        Some((mag, big)) => {
            if big {
                proof {
                    assert(spec_digits_val(body) > i32::MAX);
                    assert(-spec_digits_val(body) < i32::MIN);
                }
                d
            } else if neg {
                if mag <= 2147483648 {
                    (-(mag as i64)) as i32
                } else {
                    d
                }
            } else {
                if mag <= 2147483647 {
                    mag as i32
                } else {
                    d
                }
            }
        },
    }
}

/// Parse `s` as `u64` by Rust's rules, or return `d`.
pub fn parse_u64_or(s: &str, d: u64) -> (r: u64)
    ensures
        r as int == spec_u64_or(s@, d as int),
{
    let n = s.unicode_len();
    if n == 0 {
        return d;
    }
    let first = s.get_char(0);
    if first == '-' {
        proof {
            assert(spec_parse_u64(s@) is None) by {
                let body = s@;
                assert(!spec_is_digit(body[0]));
            }
        }
        return d;
    }
    let start: usize = if first == '+' {
        1
    } else {
        0
    };
    let ghost body = if first == '+' {
        s@.drop_first()
    } else {
        s@
    };
    proof {
        assert(body =~= s@.subrange(start as int, s@.len() as int));
    }
    match scan_digits(s, start, u64::MAX as u128) {
        None => d,
        Some((mag, big)) => {
            if big {
                d
            } else {
                mag as u64
            }
        },
    }
}

// --- decimal formatting ---

/// The decimal digit character for a value 0 through 9.
pub open spec fn spec_char_of_digit(d: int) -> char {
    if d == 1 {
        '1'
    } else if d == 2 {
        '2'
    } else if d == 3 {
        '3'
    } else if d == 4 {
        '4'
    } else if d == 5 {
        '5'
    } else if d == 6 {
        '6'
    } else if d == 7 {
        '7'
    } else if d == 8 {
        '8'
    } else if d == 9 {
        '9'
    } else {
        '0'
    }
}

fn char_of_digit(d: u64) -> (c: char)
    requires
        d <= 9,
    ensures
        c == spec_char_of_digit(d as int),
{
    if d == 1 {
        '1'
    } else if d == 2 {
        '2'
    } else if d == 3 {
        '3'
    } else if d == 4 {
        '4'
    } else if d == 5 {
        '5'
    } else if d == 6 {
        '6'
    } else if d == 7 {
        '7'
    } else if d == 8 {
        '8'
    } else if d == 9 {
        '9'
    } else {
        '0'
    }
}

/// The decimal digit string of a non-negative value, no sign, no
/// leading zeros (a single `0` for zero).
pub open spec fn spec_dec_u64(n: nat) -> Seq<char>
    decreases n,
{
    if n < 10 {
        seq![spec_char_of_digit(n as int)]
    } else {
        spec_dec_u64(n / 10).push(spec_char_of_digit((n % 10) as int))
    }
}

/// The decimal string of a signed value: a `-` before the magnitude of
/// a negative one.
pub open spec fn spec_dec_i32(n: int) -> Seq<char> {
    if n < 0 {
        seq!['-'] + spec_dec_u64((-n) as nat)
    } else {
        spec_dec_u64(n as nat)
    }
}

pub fn u64_to_string(n: u64) -> (r: String)
    ensures
        r@ == spec_dec_u64(n as nat),
    decreases n,
{
    if n < 10 {
        let mut r = String::new();
        push_char(&mut r, char_of_digit(n));
        proof {
            assert(r@ =~= spec_dec_u64(n as nat));
        }
        r
    } else {
        let mut r = u64_to_string(n / 10);
        push_char(&mut r, char_of_digit(n % 10));
        r
    }
}

pub fn i32_to_string(n: i32) -> (r: String)
    ensures
        r@ == spec_dec_i32(n as int),
{
    if n < 0 {
        let mag: u64 = (-(n as i64)) as u64;
        let mut r = String::new();
        push_char(&mut r, '-');
        let digits = u64_to_string(mag);
        r.append(digits.as_str());
        proof {
            assert(r@ =~= spec_dec_i32(n as int));
        }
        r
    } else {
        u64_to_string(n as u64)
    }
}

} // verus!
