//! Character-level string utilities: splitting on a separator, case
//! folding, character replacement, quote stripping and joining. All
//! executable functions are specified against spec functions over the
//! `Seq<char>` views of `&str` and `String`.

use vstd::prelude::*;

verus! {

// --- character classification and mapping ---

/// An ASCII decimal digit.
pub open spec fn spec_is_digit(c: char) -> bool {
    c == '0' || c == '1' || c == '2' || c == '3' || c == '4' || c == '5' || c == '6' || c == '7'
        || c == '8' || c == '9'
}

/// Numeric value of an ASCII decimal digit (0 for anything else).
pub open spec fn spec_digit_val(c: char) -> int {
    if c == '1' {
        1
    } else if c == '2' {
        2
    } else if c == '3' {
        3
    } else if c == '4' {
        4
    } else if c == '5' {
        5
    } else if c == '6' {
        6
    } else if c == '7' {
        7
    } else if c == '8' {
        8
    } else if c == '9' {
        9
    } else {
        0
    }
}

/// ASCII lower-casing of one character; everything outside `A`..`Z` is
/// left unchanged.
pub open spec fn spec_lower_char(c: char) -> char {
    if c == 'A' {
        'a'
    } else if c == 'B' {
        'b'
    } else if c == 'C' {
        'c'
    } else if c == 'D' {
        'd'
    } else if c == 'E' {
        'e'
    } else if c == 'F' {
        'f'
    } else if c == 'G' {
        'g'
    } else if c == 'H' {
        'h'
    } else if c == 'I' {
        'i'
    } else if c == 'J' {
        'j'
    } else if c == 'K' {
        'k'
    } else if c == 'L' {
        'l'
    } else if c == 'M' {
        'm'
    } else if c == 'N' {
        'n'
    } else if c == 'O' {
        'o'
    } else if c == 'P' {
        'p'
    } else if c == 'Q' {
        'q'
    } else if c == 'R' {
        'r'
    } else if c == 'S' {
        's'
    } else if c == 'T' {
        't'
    } else if c == 'U' {
        'u'
    } else if c == 'V' {
        'v'
    } else if c == 'W' {
        'w'
    } else if c == 'X' {
        'x'
    } else if c == 'Y' {
        'y'
    } else if c == 'Z' {
        'z'
    } else {
        c
    }
}

fn is_digit(c: char) -> (r: bool)
    ensures
        r == spec_is_digit(c),
{
    c == '0' || c == '1' || c == '2' || c == '3' || c == '4' || c == '5' || c == '6' || c == '7'
        || c == '8' || c == '9'
}

pub(crate) fn digit_val(c: char) -> (r: u32)
    ensures
        r == spec_digit_val(c),
{
    if c == '1' {
        1
    } else if c == '2' {
        2
    } else if c == '3' {
        3
    } else if c == '4' {
        4
    } else if c == '5' {
        5
    } else if c == '6' {
        6
    } else if c == '7' {
        7
    } else if c == '8' {
        8
    } else if c == '9' {
        9
    } else {
        0
    }
}

fn lower_char(c: char) -> (r: char)
    ensures
        r == spec_lower_char(c),
{
    if c == 'A' {
        'a'
    } else if c == 'B' {
        'b'
    } else if c == 'C' {
        'c'
    } else if c == 'D' {
        'd'
    } else if c == 'E' {
        'e'
    } else if c == 'F' {
        'f'
    } else if c == 'G' {
        'g'
    } else if c == 'H' {
        'h'
    } else if c == 'I' {
        'i'
    } else if c == 'J' {
        'j'
    } else if c == 'K' {
        'k'
    } else if c == 'L' {
        'l'
    } else if c == 'M' {
        'm'
    } else if c == 'N' {
        'n'
    } else if c == 'O' {
        'o'
    } else if c == 'P' {
        'p'
    } else if c == 'Q' {
        'q'
    } else if c == 'R' {
        'r'
    } else if c == 'S' {
        's'
    } else if c == 'T' {
        't'
    } else if c == 'U' {
        'u'
    } else if c == 'V' {
        'v'
    } else if c == 'W' {
        'w'
    } else if c == 'X' {
        'x'
    } else if c == 'Y' {
        'y'
    } else if c == 'Z' {
        'z'
    } else {
        c
    }
}

// --- building strings character by character ---

/// Relies on `String::push` from std, which appends the given character
/// to the end of the string; vstd gives it no specification.
#[verifier::external_body]
pub(crate) fn push_char(s: &mut String, c: char)
    ensures
        final(s)@ == old(s)@.push(c),
{
    s.push(c)
}

// --- equality of string slices ---

pub fn str_eq(a: &str, b: &str) -> (r: bool)
    ensures
        r == (a@ == b@),
{
    let na = a.unicode_len();
    let nb = b.unicode_len();
    if na != nb {
        proof {
            assert(a@ != b@) by {
                assert(a@.len() != b@.len());
            }
        }
        return false;
    }
    let mut i: usize = 0;
    while i < na
        invariant
            i <= na,
            na == a@.len(),
            na == b@.len(),
            forall|j: int| 0 <= j < i ==> a@[j] == b@[j],
        decreases na - i,
    {
        if a.get_char(i) != b.get_char(i) {
            return false;
        }
        i += 1;
    }
    proof {
        assert(a@ =~= b@);
    }
    true
}

// --- splitting on a separator character ---

/// The fields of `s` delimited by `sep`: always at least one field, a
/// separator as the last character ends with an empty field, and any
/// other character extends the final field.
pub open spec fn spec_split(s: Seq<char>, sep: char) -> Seq<Seq<char>>
    decreases s.len(),
{
    if s.len() == 0 {
        seq![Seq::<char>::empty()]
    } else {
        let r = spec_split(s.drop_last(), sep);
        if s.last() == sep {
            r.push(Seq::<char>::empty())
        } else {
            r.update(r.len() - 1, r.last().push(s.last()))
        }
    }
}

pub proof fn lemma_split_nonempty(s: Seq<char>, sep: char)
    ensures
        spec_split(s, sep).len() >= 1,
    decreases s.len(),
{
    if s.len() > 0 {
        lemma_split_nonempty(s.drop_last(), sep);
    }
}

pub fn split_str(s: &str, sep: char) -> (r: Vec<String>)
    ensures
        r.deep_view() == spec_split(s@, sep),
        r.len() >= 1,
{
    let n = s.unicode_len();
    let mut r: Vec<String> = Vec::new();
    let mut cur = String::new();
    let mut i: usize = 0;
    while i < n
        invariant
            i <= n,
            n == s@.len(),
            r.deep_view().push(cur@) == spec_split(s@.subrange(0, i as int), sep),
        decreases n - i,
    {
        let ghost prev_r = r.deep_view();
        let ghost prev_cur = cur@;
        let ghost pre = s@.subrange(0, i as int);
        let ghost ext = s@.subrange(0, i + 1 as int);
        proof {
            assert(ext.drop_last() =~= pre);
            assert(ext.last() == s@[i as int]);
        }
        let c = s.get_char(i);
        if c == sep {
            r.push(cur);
            cur = String::new();
            proof {
                assert(r.deep_view() =~= prev_r.push(prev_cur));
                assert(spec_split(ext, sep) == spec_split(pre, sep).push(Seq::<char>::empty()));
                assert(r.deep_view().push(cur@) =~= spec_split(ext, sep));
            }
        } else {
            push_char(&mut cur, c);
            proof {
                let old_split = spec_split(pre, sep);
                lemma_split_nonempty(pre, sep);
                assert(old_split == prev_r.push(prev_cur));
                assert(old_split.last() == prev_cur);
                assert(spec_split(ext, sep) == old_split.update(
                    old_split.len() - 1,
                    prev_cur.push(c),
                ));
                assert(r.deep_view().push(cur@) =~= old_split.update(
                    old_split.len() - 1,
                    prev_cur.push(c),
                ));
            }
        }
        i += 1;
    }
    proof {
        assert(s@.subrange(0, n as int) =~= s@);
    }
    let ghost final_r = r.deep_view();
    let ghost final_cur = cur@;
    r.push(cur);
    proof {
        assert(r.deep_view() =~= final_r.push(final_cur));
    }
    r
}

// --- containment ---

pub fn contains_char(s: &str, c: char) -> (r: bool)
    ensures
        r == s@.contains(c),
{
    let n = s.unicode_len();
    let mut i: usize = 0;
    while i < n
        invariant
            i <= n,
            n == s@.len(),
            forall|j: int| 0 <= j < i ==> s@[j] != c,
        decreases n - i,
    {
        if s.get_char(i) == c {
            return true;
        }
        i += 1;
    }
    false
}

// --- character-wise mappings ---

/// ASCII lower-casing of a whole string.
pub open spec fn spec_lower(s: Seq<char>) -> Seq<char> {
    s.map_values(|c: char| spec_lower_char(c))
}

pub fn lower_str(s: &str) -> (r: String)
    ensures
        r@ == spec_lower(s@),
{
    let n = s.unicode_len();
    let mut out = String::new();
    let mut i: usize = 0;
    while i < n
        invariant
            i <= n,
            n == s@.len(),
            out@.len() == i,
            forall|j: int| 0 <= j < i ==> out@[j] == spec_lower_char(s@[j]),
        decreases n - i,
    {
        let c = s.get_char(i);
        push_char(&mut out, lower_char(c));
        i += 1;
    }
    proof {
        assert(out@ =~= spec_lower(s@));
    }
    out
}

/// Every occurrence of `from` replaced by `to`.
pub open spec fn spec_replace(s: Seq<char>, from: char, to: char) -> Seq<char> {
    s.map_values(|c: char| if c == from { to } else { c })
}

pub fn replace_str(s: &str, from: char, to: char) -> (r: String)
    ensures
        r@ == spec_replace(s@, from, to),
{
    let n = s.unicode_len();
    let mut out = String::new();
    let mut i: usize = 0;
    while i < n
        invariant
            i <= n,
            n == s@.len(),
            out@.len() == i,
            forall|j: int| 0 <= j < i ==> out@[j] == (if s@[j] == from {
                to
            } else {
                s@[j]
            }),
        decreases n - i,
    {
        let c = s.get_char(i);
        if c == from {
            push_char(&mut out, to);
        } else {
            push_char(&mut out, c);
        }
        i += 1;
    }
    proof {
        assert(out@ =~= spec_replace(s@, from, to));
    }
    out
}

// --- quote stripping ---

/// `s` with every double-quote character removed.
pub open spec fn spec_strip_quotes(s: Seq<char>) -> Seq<char>
    decreases s.len(),
{
    if s.len() == 0 {
        Seq::<char>::empty()
    } else if s.last() == '"' {
        spec_strip_quotes(s.drop_last())
    } else {
        spec_strip_quotes(s.drop_last()).push(s.last())
    }
}

pub fn strip_quotes(s: &str) -> (r: String)
    ensures
        r@ == spec_strip_quotes(s@),
{
    let n = s.unicode_len();
    let mut out = String::new();
    let mut i: usize = 0;
    while i < n
        invariant
            i <= n,
            n == s@.len(),
            out@ == spec_strip_quotes(s@.subrange(0, i as int)),
        decreases n - i,
    {
        proof {
            assert(s@.subrange(0, i + 1 as int).drop_last() =~= s@.subrange(0, i as int));
        }
        let c = s.get_char(i);
        if c != '"' {
            push_char(&mut out, c);
        }
        i += 1;
    }
    proof {
        assert(s@.subrange(0, n as int) =~= s@);
    }
    out
}

// --- trailing-dot trimming ---

/// `s` with one trailing `.` removed, if it has one.
pub open spec fn spec_trim_dot(s: Seq<char>) -> Seq<char> {
    if s.len() > 0 && s.last() == '.' {
        s.drop_last()
    } else {
        s
    }
}

pub fn trim_dot(s: &str) -> (r: String)
    ensures
        r@ == spec_trim_dot(s@),
{
    let n = s.unicode_len();
    if n > 0 && s.get_char(n - 1) == '.' {
        let t = s.substring_char(0, n - 1);
        proof {
            assert(t@ =~= s@.drop_last());
        }
        String::from_str(t)
    } else {
        String::from_str(s)
    }
}

// --- joining ---

/// The fields of `parts` joined with `sep` between consecutive fields.
pub open spec fn spec_join(parts: Seq<Seq<char>>, sep: char) -> Seq<char>
    decreases parts.len(),
{
    if parts.len() == 0 {
        Seq::<char>::empty()
    } else if parts.len() == 1 {
        parts[0]
    } else {
        spec_join(parts.drop_last(), sep).push(sep) + parts.last()
    }
}

pub fn join_str(parts: &Vec<String>, sep: char) -> (r: String)
    ensures
        r@ == spec_join(parts.deep_view(), sep),
{
    let mut out = String::new();
    let mut k: usize = 0;
    while k < parts.len()
        invariant
            k <= parts.len(),
            out@ == spec_join(parts.deep_view().subrange(0, k as int), sep),
        decreases parts.len() - k,
    {
        let ghost dv = parts.deep_view();
        proof {
            assert(dv.subrange(0, k + 1 as int).drop_last() =~= dv.subrange(0, k as int));
            assert(dv.subrange(0, k + 1 as int).last() == dv[k as int]);
            assert(dv[k as int] == parts[k as int]@);
        }
        if k > 0 {
            push_char(&mut out, sep);
        }
        out.append(parts[k].as_str());
        proof {
            if k == 0 {
                assert(spec_join(dv.subrange(0, 1), sep) == dv.subrange(0, 1)[0]);
                assert(dv.subrange(0, 1)[0] == dv[0]);
            }
        }
        k += 1;
    }
    proof {
        assert(parts.deep_view().subrange(0, parts.len() as int) =~= parts.deep_view());
    }
    out
}

// --- reversal ---

pub fn reverse_strs(v: &Vec<String>) -> (r: Vec<String>)
    ensures
        r.deep_view() == v.deep_view().reverse(),
{
    let mut out: Vec<String> = Vec::new();
    let mut k: usize = 0;
    let n = v.len();
    while k < n
        invariant
            k <= n,
            n == v.len(),
            out.len() == k,
            forall|j: int| 0 <= j < k ==> out.deep_view()[j] == v.deep_view()[n - 1 - j],
        decreases n - k,
    {
        let ghost prev = out.deep_view();
        let piece = v[n - 1 - k].clone();
        proof {
            assert(piece@ == v.deep_view()[n - 1 - k as int]);
        }
        out.push(piece);
        proof {
            assert forall|j: int| 0 <= j < k + 1 implies out.deep_view()[j] == v.deep_view()[n - 1
                - j] by {
                if j < k {
                    assert(out.deep_view()[j] == prev[j]);
                }
            }
        }
        k += 1;
    }
    proof {
        assert(out.deep_view() =~= v.deep_view().reverse());
    }
    out
}

} // verus!
