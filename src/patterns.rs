//! The text grammars of coupon extraction: a coupon code after a keyword,
//! a percentage off, a fixed amount off, and a minimum order. Each scanner
//! finds the leftmost match, as a backtracking matcher of the patterns
//! `(?i)(?:code|coupon|promo)[\s:]*([A-Z0-9]{3,20})`, `(\d+)\s*%\s*off`,
//! `\$(\d+(?:\.\d{2})?)\s*off` and
//! `(?i)minimum\s*(?:order|purchase)[\s:]*\$?(\d+(?:\.\d{2})?)` would.
//! Digits are ASCII digits.
use vstd::prelude::*;
use crate::text::{is_space, is_space_exec, is_digit};

verus! {

/// Case-insensitive match of `c` against the ASCII lower-case letter
/// `lower`, under simple case folding (`ſ` folds to `s`, the Kelvin sign to
/// `k`).
pub open spec fn ci_eq(c: char, lower: char) -> bool {
    c == lower || (c as u32) + 32 == (lower as u32) || (lower == 's' && c == '\u{17f}') || (lower == 'k'
        && c == '\u{212a}')
}

fn ci_eq_exec(c: char, lower: char) -> (r: bool)
    ensures
        r == ci_eq(c, lower),
{
    c == lower || (c as u32) + 32 == (lower as u32) || (lower == 's' && c == '\u{17f}') || (lower == 'k'
        && c == '\u{212a}')
}

/// `w` (lower case) occurs at `i`, ignoring case.
pub open spec fn word_at(t: Seq<char>, i: int, w: Seq<char>) -> bool {
    0 <= i && i + w.len() <= t.len() && forall|k: int| 0 <= k < w.len() ==> ci_eq(#[trigger] t[i + k], w[k])
}

fn word_at_exec(t: &Vec<char>, i: usize, w: &Vec<char>) -> (r: bool)
    ensures
        r == word_at(t@, i as int, w@),
{
    if i > t.len() || w.len() > t.len() - i {
        return false;
    }
    let mut k: usize = 0;
    while k < w.len()
        invariant
            i + w.len() <= t.len(),
            k <= w.len(),
            forall|m: int| 0 <= m < k ==> ci_eq(#[trigger] t@[i + m], w@[m]),
        decreases w.len() - k,
    {
        if !ci_eq_exec(t[i + k], w[k]) {
            assert(!ci_eq(t@[i + k as int], w@[k as int]));
            return false;
        }
        k += 1;
    }
    true
}

pub open spec fn word_code() -> Seq<char> {
    seq!['c', 'o', 'd', 'e']
}

pub open spec fn word_coupon() -> Seq<char> {
    seq!['c', 'o', 'u', 'p', 'o', 'n']
}

pub open spec fn word_promo() -> Seq<char> {
    seq!['p', 'r', 'o', 'm', 'o']
}

pub open spec fn word_minimum() -> Seq<char> {
    seq!['m', 'i', 'n', 'i', 'm', 'u', 'm']
}

pub open spec fn word_order() -> Seq<char> {
    seq!['o', 'r', 'd', 'e', 'r']
}

pub open spec fn word_purchase() -> Seq<char> {
    seq!['p', 'u', 'r', 'c', 'h', 'a', 's', 'e']
}

pub open spec fn word_off() -> Seq<char> {
    seq!['o', 'f', 'f']
}

/// `[\s:]`
pub open spec fn is_sep(c: char) -> bool {
    is_space(c) || c == ':'
}

/// `(?i)[A-Z0-9]`
pub open spec fn is_code_char(c: char) -> bool {
    ('A' <= c && c <= 'Z') || ('a' <= c && c <= 'z') || ('0' <= c && c <= '9') || c == '\u{17f}' || c
        == '\u{212a}'
}

fn is_code_char_exec(c: char) -> (r: bool)
    ensures
        r == is_code_char(c),
{
    ('A' <= c && c <= 'Z') || ('a' <= c && c <= 'z') || ('0' <= c && c <= '9') || c == '\u{17f}' || c
        == '\u{212a}'
}

/// First position at or after `j` that is not a separator.
pub open spec fn skip_seps(t: Seq<char>, j: int) -> int
    decreases t.len() - j,
{
    if 0 <= j < t.len() && is_sep(t[j]) {
        skip_seps(t, j + 1)
    } else {
        j
    }
}

/// First position at or after `j` that is not white space.
pub open spec fn skip_spaces(t: Seq<char>, j: int) -> int
    decreases t.len() - j,
{
    if 0 <= j < t.len() && is_space(t[j]) {
        skip_spaces(t, j + 1)
    } else {
        j
    }
}

/// Length of the run of code characters at `j`, at most `cap`.
pub open spec fn code_run(t: Seq<char>, j: int, cap: nat) -> nat
    decreases cap,
{
    if cap == 0 || j < 0 || j >= t.len() || !is_code_char(t[j]) {
        0
    } else {
        1 + code_run(t, j + 1, (cap - 1) as nat)
    }
}

/// Length of the run of digits at `j`.
pub open spec fn digit_run(t: Seq<char>, j: int) -> nat
    decreases t.len() - j,
{
    if 0 <= j < t.len() && is_digit(t[j]) {
        1 + digit_run(t, j + 1)
    } else {
        0
    }
}

/// Length of the keyword (`code`, `coupon` or `promo`) at `i`, or zero.
pub open spec fn keyword_len(t: Seq<char>, i: int) -> nat {
    if word_at(t, i, word_code()) {
        4
    } else if word_at(t, i, word_coupon()) {
        6
    } else if word_at(t, i, word_promo()) {
        5
    } else {
        0
    }
}

/// The captured code of a match that starts at `i`.
pub open spec fn code_match_at(t: Seq<char>, i: int) -> Option<(int, int)> {
    let l = keyword_len(t, i);
    if l == 0 {
        None
    } else {
        let j = skip_seps(t, i + l);
        let r = code_run(t, j, 20);
        if r >= 3 {
            Some((j, j + r))
        } else {
            None
        }
    }
}

/// Captured codes of the successive non-overlapping matches from `p` on.
pub open spec fn code_spans(t: Seq<char>, p: int) -> Seq<(int, int)>
    decreases t.len() - p,
{
    if p < 0 || p >= t.len() {
        Seq::empty()
    } else {
        match code_match_at(t, p) {
            Some(m) => if p < m.1 <= t.len() {
                seq![m] + code_spans(t, m.1)
            } else {
                code_spans(t, p + 1)
            },
            None => code_spans(t, p + 1),
        }
    }
}

/// Digits of a percentage match that starts at `i`.
pub open spec fn percent_at(t: Seq<char>, i: int) -> Option<(int, int)> {
    let d = digit_run(t, i);
    if d == 0 {
        None
    } else {
        let k = skip_spaces(t, i + d);
        if 0 <= k < t.len() && t[k] == '%' {
            let k2 = skip_spaces(t, k + 1);
            if k2 + 3 <= t.len() && t.subrange(k2, k2 + 3) == word_off() {
                Some((i, i + d))
            } else {
                None
            }
        } else {
            None
        }
    }
}

/// Amount of a fixed-discount match that starts at `i`.
pub open spec fn fixed_at(t: Seq<char>, i: int) -> Option<(int, int)> {
    if !(0 <= i < t.len() && t[i] == '$') {
        None
    } else {
        let d = digit_run(t, i + 1);
        if d == 0 {
            None
        } else {
            let e = i + 1 + d;
            let e2 = if e + 2 < t.len() && t[e] == '.' && is_digit(t[e + 1]) && is_digit(t[e + 2]) {
                e + 3
            } else {
                e
            };
            let k = skip_spaces(t, e2);
            if k + 3 <= t.len() && t.subrange(k, k + 3) == word_off() {
                Some((i + 1, e2))
            } else {
                None
            }
        }
    }
}

/// Amount of a minimum-order match that starts at `i`.
pub open spec fn minimum_at(t: Seq<char>, i: int) -> Option<(int, int)> {
    if !word_at(t, i, word_minimum()) {
        None
    } else {
        let k = skip_spaces(t, i + 7);
        let l: int = if word_at(t, k, word_order()) {
            5
        } else if word_at(t, k, word_purchase()) {
            8
        } else {
            0
        };
        if l == 0 {
            None
        } else {
            let k3 = skip_seps(t, k + l);
            let k4 = if 0 <= k3 < t.len() && t[k3] == '$' && digit_run(t, k3 + 1) > 0 {
                k3 + 1
            } else {
                k3
            };
            let d = digit_run(t, k4);
            if d == 0 {
                None
            } else {
                let e = k4 + d;
                let e2 = if e + 2 < t.len() && t[e] == '.' && is_digit(t[e + 1]) && is_digit(t[e + 2]) {
                    e + 3
                } else {
                    e
                };
                Some((k4, e2))
            }
        }
    }
}

/// Which grammar a scan looks for.
#[derive(Clone, Copy, Debug, PartialEq, Eq, Structural)]
pub enum Pattern {
    Percent,
    Fixed,
    Minimum,
}

pub open spec fn match_at(p: Pattern, t: Seq<char>, i: int) -> Option<(int, int)> {
    match p {
        Pattern::Percent => percent_at(t, i),
        Pattern::Fixed => fixed_at(t, i),
        Pattern::Minimum => minimum_at(t, i),
    }
}

/// The leftmost match at or after `i`.
pub open spec fn first_match(p: Pattern, t: Seq<char>, i: int) -> Option<(int, int)>
    decreases t.len() - i,
{
    if i < 0 || i >= t.len() {
        None
    } else {
        match match_at(p, t, i) {
            Some(m) => Some(m),
            None => first_match(p, t, i + 1),
        }
    }
}

fn skip_seps_exec(t: &Vec<char>, j: usize) -> (r: usize)
    requires
        j <= t@.len(),
    ensures
        r == skip_seps(t@, j as int),
        j <= r <= t@.len(),
{
    let mut k = j;
    while k < t.len() && (is_space_exec(t[k]) || t[k] == ':')
        invariant
            j <= k <= t@.len(),
            skip_seps(t@, j as int) == skip_seps(t@, k as int),
        decreases t@.len() - k,
    {
        k += 1;
    }
    k
}

pub fn skip_spaces_exec(t: &Vec<char>, j: usize) -> (r: usize)
    requires
        j <= t@.len(),
    ensures
        r == skip_spaces(t@, j as int),
        j <= r <= t@.len(),
{
    let mut k = j;
    while k < t.len() && is_space_exec(t[k])
        invariant
            j <= k <= t@.len(),
            skip_spaces(t@, j as int) == skip_spaces(t@, k as int),
        decreases t@.len() - k,
    {
        k += 1;
    }
    k
}

fn code_run_exec(t: &Vec<char>, j: usize, cap: usize) -> (r: usize)
    requires
        j <= t@.len(),
    ensures
        r == code_run(t@, j as int, cap as nat),
        j + r <= t@.len(),
{
    let mut k = j;
    while k < t.len() && k - j < cap && is_code_char_exec(t[k])
        invariant
            j <= k <= t@.len(),
            k - j <= cap,
            code_run(t@, j as int, cap as nat) == (k - j) + code_run(t@, k as int, (cap - (k - j)) as nat),
        decreases t@.len() - k,
    {
        k += 1;
    }
    k - j
}

fn digit_run_exec(t: &Vec<char>, j: usize) -> (r: usize)
    requires
        j <= t@.len(),
    ensures
        r == digit_run(t@, j as int),
        j + r <= t@.len(),
{
    let mut k = j;
    while k < t.len() && '0' <= t[k] && t[k] <= '9'
        invariant
            j <= k <= t@.len(),
            digit_run(t@, j as int) == (k - j) + digit_run(t@, k as int),
        decreases t@.len() - k,
    {
        k += 1;
    }
    k - j
}

fn is_digit_at(t: &Vec<char>, j: usize) -> (r: bool)
    ensures
        r == (j < t@.len() && is_digit(t@[j as int])),
{
    j < t.len() && '0' <= t[j] && t[j] <= '9'
}

/// Whether `off` follows at `k`.
fn off_at(t: &Vec<char>, k: usize) -> (r: bool)
    ensures
        r == (k + 3 <= t@.len() && t@.subrange(k as int, k + 3) == word_off()),
{
    if k <= t.len() && 3 <= t.len() - k {
        let r = t[k] == 'o' && t[k + 1] == 'f' && t[k + 2] == 'f';
        proof {
            if r {
                assert(t@.subrange(k as int, k + 3) =~= word_off());
            } else {
                let sub = t@.subrange(k as int, k + 3);
                if sub == word_off() {
                    assert(sub[0] == 'o' && sub[1] == 'f' && sub[2] == 'f');
                }
            }
        }
        r
    } else {
        false
    }
}

fn keyword_len_exec(t: &Vec<char>, i: usize) -> (r: usize)
    ensures
        r == keyword_len(t@, i as int),
{
    let code = vec!['c', 'o', 'd', 'e'];
    let coupon = vec!['c', 'o', 'u', 'p', 'o', 'n'];
    let promo = vec!['p', 'r', 'o', 'm', 'o'];
    assert(code@ =~= word_code());
    assert(coupon@ =~= word_coupon());
    assert(promo@ =~= word_promo());
    if word_at_exec(t, i, &code) {
        4
    } else if word_at_exec(t, i, &coupon) {
        6
    } else if word_at_exec(t, i, &promo) {
        5
    } else {
        0
    }
}

fn code_match_at_exec(t: &Vec<char>, i: usize) -> (r: Option<(usize, usize)>)
    requires
        i < t@.len(),
    ensures
        match code_match_at(t@, i as int) {
            None => r is None,
            Some(m) => r == Some((m.0 as usize, m.1 as usize)) && m.1 <= t@.len(),
        },
{
    let len = t.len();
    assert(len == t@.len());
    proof {
        assert(word_code().len() == 4 && word_coupon().len() == 6 && word_promo().len() == 5);
        assert(word_minimum().len() == 7 && word_order().len() == 5 && word_purchase().len() == 8);
    }
    let l = keyword_len_exec(t, i);
    if l == 0 {
        return None;
    }
    let j = skip_seps_exec(t, i + l);
    let n = code_run_exec(t, j, 20);
    if n >= 3 {
        Some((j, j + n))
    } else {
        None
    }
}

/// Spans of the codes captured by successive matches of the code pattern.
pub fn code_spans_exec(t: &Vec<char>) -> (r: Vec<(usize, usize)>)
    ensures
        r@.len() == code_spans(t@, 0).len(),
        forall|k: int| 0 <= k < r@.len() ==> (#[trigger] r@[k]).0 as int == code_spans(t@, 0)[k].0 && r@[k].1 as int == code_spans(t@, 0)[k].1,
        forall|k: int| 0 <= k < r@.len() ==> (#[trigger] r@[k]).0 < r@[k].1 <= t@.len(),
{
    let mut out: Vec<(usize, usize)> = Vec::new();
    let ghost acc: Seq<(int, int)> = Seq::empty();
    let mut p: usize = 0;
    while p < t.len()
        invariant
            p <= t@.len(),
            acc + code_spans(t@, p as int) == code_spans(t@, 0),
            out@.len() == acc.len(),
            forall|k: int| 0 <= k < out@.len() ==> (#[trigger] out@[k]).0 as int == acc[k].0 && out@[k].1 as int == acc[k].1,
            forall|k: int| 0 <= k < out@.len() ==> (#[trigger] out@[k]).0 < out@[k].1 <= t@.len(),
        decreases t@.len() - p,
    {
        match code_match_at_exec(t, p) {
            Some(m) => {
                if p < m.1 {
                    proof {
                        assert(code_spans(t@, p as int) == seq![(m.0 as int, m.1 as int)] + code_spans(t@, m.1 as int));
                        assert((acc + seq![(m.0 as int, m.1 as int)]) + code_spans(t@, m.1 as int) =~= acc + (seq![(m.0 as int, m.1 as int)] + code_spans(t@, m.1 as int)));
                        acc = acc.push((m.0 as int, m.1 as int));
                        assert(acc =~= acc.drop_last() + seq![(m.0 as int, m.1 as int)]);
                    }
                    out.push(m);
                    p = m.1;
                } else {
                    p += 1;
                }
            },
            None => {
                p += 1;
            },
        }
    }
    proof {
        assert(code_spans(t@, p as int) == Seq::<(int, int)>::empty());
        assert(acc + Seq::<(int, int)>::empty() =~= acc);
    }
    out
}

fn percent_at_exec(t: &Vec<char>, i: usize) -> (r: Option<(usize, usize)>)
    requires
        i < t@.len(),
    ensures
        match percent_at(t@, i as int) {
            None => r is None,
            Some(m) => r == Some((m.0 as usize, m.1 as usize)) && m.0 <= m.1 <= t@.len(),
        },
{
    let len = t.len();
    assert(len == t@.len());
    proof {
        assert(word_code().len() == 4 && word_coupon().len() == 6 && word_promo().len() == 5);
        assert(word_minimum().len() == 7 && word_order().len() == 5 && word_purchase().len() == 8);
    }
    let d = digit_run_exec(t, i);
    if d == 0 {
        return None;
    }
    let k = skip_spaces_exec(t, i + d);
    if k < t.len() && t[k] == '%' {
        let k2 = skip_spaces_exec(t, k + 1);
        if off_at(t, k2) {
            return Some((i, i + d));
        }
    }
    None
}

/// Position after an optional `.dd` at `e`.
fn optional_cents(t: &Vec<char>, e: usize) -> (r: usize)
    requires
        e <= t@.len(),
    ensures
        r == if e + 2 < t@.len() && t@[e as int] == '.' && is_digit(t@[e + 1]) && is_digit(t@[e + 2]) {
            e + 3
        } else {
            e as int
        },
        r <= t@.len(),
{
    if e < t.len() && 2 < t.len() - e && t[e] == '.' && is_digit_at(t, e + 1) && is_digit_at(t, e + 2) {
        e + 3
    } else {
        e
    }
}

fn fixed_at_exec(t: &Vec<char>, i: usize) -> (r: Option<(usize, usize)>)
    requires
        i < t@.len(),
    ensures
        match fixed_at(t@, i as int) {
            None => r is None,
            Some(m) => r == Some((m.0 as usize, m.1 as usize)) && m.0 <= m.1 <= t@.len(),
        },
{
    let len = t.len();
    assert(len == t@.len());
    proof {
        assert(word_code().len() == 4 && word_coupon().len() == 6 && word_promo().len() == 5);
        assert(word_minimum().len() == 7 && word_order().len() == 5 && word_purchase().len() == 8);
    }
    if t[i] != '$' {
        return None;
    }
    let d = digit_run_exec(t, i + 1);
    if d == 0 {
        return None;
    }
    let e = i + 1 + d;
    let e2 = optional_cents(t, e);
    let k = skip_spaces_exec(t, e2);
    if off_at(t, k) {
        Some((i + 1, e2))
    } else {
        None
    }
}

fn minimum_at_exec(t: &Vec<char>, i: usize) -> (r: Option<(usize, usize)>)
    requires
        i < t@.len(),
    ensures
        match minimum_at(t@, i as int) {
            None => r is None,
            Some(m) => r == Some((m.0 as usize, m.1 as usize)) && m.0 <= m.1 <= t@.len(),
        },
{
    let len = t.len();
    assert(len == t@.len());
    proof {
        assert(word_code().len() == 4 && word_coupon().len() == 6 && word_promo().len() == 5);
        assert(word_minimum().len() == 7 && word_order().len() == 5 && word_purchase().len() == 8);
    }
    let minimum = vec!['m', 'i', 'n', 'i', 'm', 'u', 'm'];
    let order = vec!['o', 'r', 'd', 'e', 'r'];
    let purchase = vec!['p', 'u', 'r', 'c', 'h', 'a', 's', 'e'];
    assert(minimum@ =~= word_minimum());
    assert(order@ =~= word_order());
    assert(purchase@ =~= word_purchase());
    if !word_at_exec(t, i, &minimum) {
        return None;
    }
    let k = skip_spaces_exec(t, i + 7);
    let l: usize = if word_at_exec(t, k, &order) {
        5
    } else if word_at_exec(t, k, &purchase) {
        8
    } else {
        0
    };
    if l == 0 {
        return None;
    }
    let k3 = skip_seps_exec(t, k + l);
    let k4 = if k3 < t.len() && t[k3] == '$' && digit_run_exec(t, k3 + 1) > 0 {
        k3 + 1
    } else {
        k3
    };
    let d = digit_run_exec(t, k4);
    if d == 0 {
        return None;
    }
    let e2 = optional_cents(t, k4 + d);
    Some((k4, e2))
}

/// The leftmost match of `p` in `t`.
pub fn first_match_exec(p: Pattern, t: &Vec<char>) -> (r: Option<(usize, usize)>)
    ensures
        r is None <==> first_match(p, t@, 0) is None,
        r is Some ==> first_match(p, t@, 0) == Some(((r->0).0 as int, (r->0).1 as int)) && (r->0).0 <= (r->0).1 <= t@.len(),
{
    let mut i: usize = 0;
    while i < t.len()
        invariant
            i <= t@.len(),
            first_match(p, t@, 0) == first_match(p, t@, i as int),
        decreases t@.len() - i,
    {
        let m = match p {
            Pattern::Percent => percent_at_exec(t, i),
            Pattern::Fixed => fixed_at_exec(t, i),
            Pattern::Minimum => minimum_at_exec(t, i),
        };
        if m.is_some() {
            proof {
                let mm = match_at(p, t@, i as int);
                assert(mm is Some);
                assert(first_match(p, t@, i as int) == mm);
            }
            return m;
        }
        i += 1;
    }
    None
}

} // verus!
