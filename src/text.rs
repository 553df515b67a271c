//! Character-level helpers shared by the parsers, the validator and the
//! deduplicator, and the few std text operations the library relies on.
use vstd::prelude::*;

verus! {

/// What `str::to_uppercase` gives for `s`.
pub uninterp spec fn upper_of(s: Seq<char>) -> Seq<char>;

/// What `str::to_lowercase` gives for `s`.
pub uninterp spec fn lower_of(s: Seq<char>) -> Seq<char>;

/// What `str::trim` gives for `s`.
pub uninterp spec fn trim_of(s: Seq<char>) -> Seq<char>;

/// Relies on `str::chars`: the characters of the string, in order.
#[verifier::external_body]
pub(crate) fn chars_of(s: &str) -> (r: Vec<char>)
    ensures
        r@ == s@,
{
    s.chars().collect()
}

/// Relies on `String: FromIterator<&char>`: the string holding these characters.
#[verifier::external_body]
pub(crate) fn string_from_chars(v: &Vec<char>) -> (r: String)
    ensures
        r@ == v@,
{
    v.iter().collect()
}

/// Relies on `str::to_uppercase`: the result depends on the characters alone.
#[verifier::external_body]
pub(crate) fn to_upper(s: &str) -> (r: String)
    ensures
        r@ == upper_of(s@),
        s@.len() == 0 ==> r@.len() == 0,
{
    s.to_uppercase()
}

/// Relies on `str::to_lowercase`: the result depends on the characters alone.
#[verifier::external_body]
pub(crate) fn to_lower(s: &str) -> (r: String)
    ensures
        r@ == lower_of(s@),
        s@.len() == 0 ==> r@.len() == 0,
{
    s.to_lowercase()
}

/// Relies on `str::trim`: the result depends on the characters alone.
#[verifier::external_body]
pub(crate) fn trim(s: &str) -> (r: String)
    ensures
        r@ == trim_of(s@),
        s@.len() == 0 ==> r@.len() == 0,
{
    s.trim().to_string()
}

/// Whether two character sequences are equal.
pub fn chars_equal(a: &Vec<char>, b: &Vec<char>) -> (r: bool)
    ensures
        r == (a@ == b@),
{
    if a.len() != b.len() {
        return false;
    }
    let mut i: usize = 0;
    while i < a.len()
        invariant
            a.len() == b.len(),
            i <= a.len(),
            forall|k: int| 0 <= k < i ==> a@[k] == b@[k],
        decreases a.len() - i,
    {
        if a[i] != b[i] {
            return false;
        }
        i += 1;
    }
    assert(a@ =~= b@);
    true
}

/// Whether `needle` occurs as a contiguous block of `hay`.
pub open spec fn occurs_in(needle: Seq<char>, hay: Seq<char>) -> bool {
    exists|i: int| 0 <= i && i + needle.len() <= hay.len() && #[trigger] hay.subrange(i, i + needle.len()) == needle
}

/// Whether `needle` occurs in `hay` starting at position `at`.
pub fn occurs_at(needle: &Vec<char>, hay: &Vec<char>, at: usize) -> (r: bool)
    requires
        at <= hay.len(),
    ensures
        r == (at + needle.len() <= hay.len() && hay@.subrange(at as int, at + needle.len()) == needle@),
{
    if needle.len() > hay.len() - at {
        return false;
    }
    let mut k: usize = 0;
    while k < needle.len()
        invariant
            at + needle.len() <= hay.len(),
            k <= needle.len(),
            forall|m: int| 0 <= m < k ==> hay@[at + m] == needle@[m],
        decreases needle.len() - k,
    {
        if hay[at + k] != needle[k] {
            return false;
        }
        k += 1;
    }
    assert(hay@.subrange(at as int, at + needle.len()) =~= needle@);
    true
}

/// Whether `needle` occurs anywhere in `hay`.
pub fn contains_chars(hay: &Vec<char>, needle: &Vec<char>) -> (r: bool)
    ensures
        r == occurs_in(needle@, hay@),
{
    let mut at: usize = 0;
    loop
        invariant
            at <= hay.len(),
            forall|i: int| 0 <= i < at && i + needle.len() <= hay.len() ==> #[trigger] hay@.subrange(i, i + needle.len()) != needle@,
        decreases hay.len() - at,
    {
        if occurs_at(needle, hay, at) {
            return true;
        }
        if at == hay.len() {
            return false;
        }
        at += 1;
    }
}

/// Unicode `White_Space`, the class that `\s` and `split_whitespace` use.
pub open spec fn is_space(c: char) -> bool {
    ('\u{9}' <= c && c <= '\u{d}') || c == ' ' || c == '\u{85}' || c == '\u{a0}' || c == '\u{1680}'
        || ('\u{2000}' <= c && c <= '\u{200a}') || c == '\u{2028}' || c == '\u{2029}' || c == '\u{202f}'
        || c == '\u{205f}' || c == '\u{3000}'
}

pub fn is_space_exec(c: char) -> (r: bool)
    ensures
        r == is_space(c),
{
    ('\u{9}' <= c && c <= '\u{d}') || c == ' ' || c == '\u{85}' || c == '\u{a0}' || c == '\u{1680}'
        || ('\u{2000}' <= c && c <= '\u{200a}') || c == '\u{2028}' || c == '\u{2029}' || c == '\u{202f}'
        || c == '\u{205f}' || c == '\u{3000}'
}

pub open spec fn is_digit(c: char) -> bool {
    '0' <= c && c <= '9'
}

/// Value of an ASCII digit.
pub open spec fn digit_value(c: char) -> nat {
    ((c as u32) - ('0' as u32)) as nat
}

/// Value of a run of ASCII digits, most significant first.
pub open spec fn digits_value(s: Seq<char>) -> nat
    decreases s.len(),
{
    if s.len() == 0 {
        0
    } else {
        digits_value(s.drop_last()) * 10 + digit_value(s.last())
    }
}

pub open spec fn all_digits(s: Seq<char>) -> bool {
    forall|i: int| 0 <= i < s.len() ==> is_digit(#[trigger] s[i])
}

/// Position of the first `.` at or after `i`, or the length when none.
pub open spec fn dot_from(s: Seq<char>, i: int) -> int
    decreases s.len() - i,
{
    if i >= s.len() {
        s.len() as int
    } else if s[i] == '.' {
        i
    } else {
        dot_from(s, i + 1)
    }
}

/// An amount written `d+`, `d+.d` or `d+.dd` (ASCII digits), in
/// hundredths; `None` for other text and for amounts beyond `u64`.
pub open spec fn hundredths_of(s: Seq<char>) -> Option<u64> {
    let dot = dot_from(s, 0);
    let whole = s.subrange(0, dot);
    let frac = if dot < s.len() { s.subrange(dot + 1, s.len() as int) } else { Seq::empty() };
    let ok_shape = whole.len() >= 1 && all_digits(whole) && all_digits(frac) && (dot < s.len() ==> 1 <= frac.len() <= 2);
    let value = digits_value(whole) * 100 + digits_value(frac) * (if frac.len() == 1 { 10nat } else { 1nat });
    if ok_shape && value <= u64::MAX {
        Some(value as u64)
    } else {
        None
    }
}

proof fn lemma_dot_from_bounds(s: Seq<char>, i: int)
    requires
        0 <= i <= s.len(),
    ensures
        i <= dot_from(s, i) <= s.len(),
        dot_from(s, i) < s.len() ==> s[dot_from(s, i)] == '.',
    decreases s.len() - i,
{
    if i < s.len() && s[i] != '.' {
        lemma_dot_from_bounds(s, i + 1);
    }
}

proof fn lemma_digits_value_prefix(s: Seq<char>, k: int)
    requires
        0 <= k <= s.len(),
    ensures
        digits_value(s.subrange(0, k)) <= digits_value(s),
    decreases s.len(),
{
    if k < s.len() {
        let p = s.drop_last();
        assert(p.subrange(0, k) =~= s.subrange(0, k));
        lemma_digits_value_prefix(p, k);
    } else {
        assert(s.subrange(0, k) =~= s);
    }
}

/// Reads an amount in hundredths (see `hundredths_of`).
pub fn parse_hundredths(s: &Vec<char>) -> (r: Option<u64>)
    ensures
        r == hundredths_of(s@),
{
    let n = s.len();
    let mut dot: usize = 0;
    while dot < n && s[dot] != '.'
        invariant
            dot <= n,
            n == s@.len(),
            dot_from(s@, 0) == dot_from(s@, dot as int),
        decreases n - dot,
    {
        dot += 1;
    }
    proof {
        lemma_dot_from_bounds(s@, 0);
    }
    assert(dot_from(s@, 0) == dot);
    let ghost whole = s@.subrange(0, dot as int);
    let ghost frac = if dot < n { s@.subrange(dot + 1, n as int) } else { Seq::<char>::empty() };
    let ghost mult: nat = if frac.len() == 1 { 10nat } else { 1nat };
    let ghost ok_shape = whole.len() >= 1 && all_digits(whole) && all_digits(frac) && (dot < n ==> 1 <= frac.len() <= 2);
    let ghost spec_value = digits_value(whole) * 100 + digits_value(frac) * mult;
    assert(hundredths_of(s@) == if ok_shape && spec_value <= u64::MAX { Some(spec_value as u64) } else { None });
    if dot == 0 {
        return None;
    }
    let frac_len: usize = if dot < n { n - dot - 1 } else { 0 };
    if dot < n && (frac_len < 1 || frac_len > 2) {
        return None;
    }
    let mut value: u128 = 0;
    let mut i: usize = 0;
    while i < dot
        invariant
            i <= dot <= n,
            n == s@.len(),
            whole == s@.subrange(0, dot as int),
            hundredths_of(s@) == if ok_shape && spec_value <= u64::MAX { Some(spec_value as u64) } else { None },
            ok_shape ==> all_digits(whole),
            spec_value >= digits_value(whole) * 100,
            forall|m: int| 0 <= m < i ==> is_digit(#[trigger] s@[m]),
            value == digits_value(s@.subrange(0, i as int)),
            value <= u64::MAX,
        decreases dot - i,
    {
        if !('0' <= s[i] && s[i] <= '9') {
            assert(!all_digits(whole)) by {
                assert(whole[i as int] == s@[i as int]);
            }
            return None;
        }
        assert(s@.subrange(0, i + 1).drop_last() =~= s@.subrange(0, i as int));
        let d = (s[i] as u32 - '0' as u32) as u128;
        value = value * 10 + d;
        if value > u64::MAX as u128 {
            proof {
                assert(whole.subrange(0, i + 1) =~= s@.subrange(0, i + 1));
                lemma_digits_value_prefix(whole, i + 1);
            }
            return None;
        }
        i += 1;
    }
    assert(s@.subrange(0, i as int) =~= whole);
    assert(all_digits(whole));
    let mut frac_value: u128 = 0;
    if frac_len >= 1 {
        let c = s[dot + 1];
        if !('0' <= c && c <= '9') {
            assert(frac[0] == c);
            return None;
        }
        assert(frac.subrange(0, 1).drop_last() =~= Seq::<char>::empty());
        assert(frac.subrange(0, 1).last() == c);
        assert(digits_value(Seq::<char>::empty()) == 0);
        assert(digits_value(frac.subrange(0, 1)) == digits_value(frac.subrange(0, 1).drop_last()) * 10 + digit_value(c));
        assert(digits_value(frac.subrange(0, 1)) == digit_value(c));
        frac_value = ((c as u32 - '0' as u32) as u128) * 10;
        if frac_len == 2 {
            let c2 = s[dot + 2];
            if !('0' <= c2 && c2 <= '9') {
                assert(frac[1] == c2);
                return None;
            }
            assert(frac.drop_last() =~= frac.subrange(0, 1));
            assert(digits_value(frac) == digit_value(c) * 10 + digit_value(c2));
            frac_value = frac_value + (c2 as u32 - '0' as u32) as u128;
            assert(frac_value == digits_value(frac) * mult);
        } else {
            assert(frac =~= frac.subrange(0, 1));
            assert(frac_value == digits_value(frac) * mult);
        }
        assert(all_digits(frac));
    } else {
        assert(frac =~= Seq::<char>::empty());
        assert(digits_value(frac) == 0);
    }
    assert(value == digits_value(whole));
    let total: u128 = value * 100 + frac_value;
    if total > u64::MAX as u128 {
        return None;
    }
    Some(total as u64)
}

} // verus!
