//! Dotted-quad IPv4 address validation: four dot-separated decimal
//! octets, each 0 through 255, written without leading zeros.

use vstd::prelude::*;

use crate::num::spec_all_digits;
use crate::num::spec_digits_val;
use crate::text::spec_is_digit;
use crate::text::spec_split;
use crate::text::split_str;

verus! {

/// One octet: one to three decimal digits, value at most 255, and no
/// leading zero unless the octet is exactly `0`.
pub open spec fn spec_valid_octet(s: Seq<char>) -> bool {
    &&& spec_all_digits(s)
    &&& s.len() <= 3
    &&& (s.len() == 1 || s[0] != '0')
    &&& spec_digits_val(s) <= 255
}

/// A well-formed dotted-quad IPv4 address.
pub open spec fn spec_is_ipv4(s: Seq<char>) -> bool {
    let p = spec_split(s, '.');
    &&& p.len() == 4
    &&& spec_valid_octet(p[0])
    &&& spec_valid_octet(p[1])
    &&& spec_valid_octet(p[2])
    &&& spec_valid_octet(p[3])
}

fn valid_octet(s: &str) -> (r: bool)
    ensures
        r == spec_valid_octet(s@),
{
    let n = s.unicode_len();
    if n == 0 || n > 3 {
        return false;
    }
    let mut val: u32 = 0;
    let mut i: usize = 0;
    while i < n
        invariant
            i <= n,
            n == s@.len(),
            1 <= n <= 3,
            forall|j: int| 0 <= j < i ==> spec_is_digit(s@[j]),
            val as int == spec_digits_val(s@.subrange(0, i as int)),
            i == 0 ==> val == 0,
            i == 1 ==> val <= 9,
            i == 2 ==> val <= 99,
            i == 3 ==> val <= 999,
        decreases n - i,
    {
        let ghost pre = s@.subrange(0, i as int);
        let ghost ext = s@.subrange(0, i + 1 as int);
        proof {
            assert(ext.drop_last() =~= pre);
            assert(ext.last() == s@[i as int]);
        }
        let c = s.get_char(i);
        if !(c == '0' || c == '1' || c == '2' || c == '3' || c == '4' || c == '5' || c == '6' || c
            == '7' || c == '8' || c == '9') {
            return false;
        }
        val = val * 10 + crate::text::digit_val(c);
        i += 1;
    }
    proof {
        assert(s@.subrange(0, n as int) =~= s@);
    }
    if val > 255 {
        return false;
    }
    if n > 1 && s.get_char(0) == '0' {
        return false;
    }
    true
}

pub fn is_ipv4(s: &str) -> (r: bool)
    ensures
        r == spec_is_ipv4(s@),
{
    let parts = split_str(s, '.');
    let ghost dv = parts.deep_view();
    if parts.len() != 4 {
        return false;
    }
    proof {
        assert(dv[0] == parts[0]@);
        assert(dv[1] == parts[1]@);
        assert(dv[2] == parts[2]@);
        assert(dv[3] == parts[3]@);
    }
    valid_octet(parts[0].as_str()) && valid_octet(parts[1].as_str()) && valid_octet(
        parts[2].as_str(),
    ) && valid_octet(parts[3].as_str())
}

} // verus!
