//! The quality gate: a record is kept when its code, discount, dates and
//! merchant all pass.
use vstd::prelude::*;
use crate::coupon::{RawCoupon, DiscountType, CouponView};
use crate::text::{chars_of, contains_chars, occurs_in};

verus! {

pub const SECONDS_PER_DAY: i64 = 86_400;

pub open spec fn is_upper_or_digit(c: char) -> bool {
    ('A' <= c && c <= 'Z') || ('0' <= c && c <= '9')
}

pub open spec fn is_alnum(c: char) -> bool {
    ('A' <= c && c <= 'Z') || ('a' <= c && c <= 'z') || ('0' <= c && c <= '9')
}

/// `^[A-Z0-9]{3,50}$`
pub open spec fn code_shape_ok(s: Seq<char>) -> bool {
    3 <= s.len() <= 50 && forall|i: int| 0 <= i < s.len() ==> is_upper_or_digit(#[trigger] s[i])
}

pub open spec fn spam_words() -> Seq<Seq<char>> {
    seq![
        seq!['T', 'E', 'S', 'T'],
        seq!['D', 'E', 'M', 'O'],
        seq!['E', 'X', 'A', 'M', 'P', 'L', 'E'],
        seq!['F', 'A', 'K', 'E'],
        seq!['I', 'N', 'V', 'A', 'L', 'I', 'D'],
    ]
}

pub open spec fn has_spam_word(s: Seq<char>) -> bool {
    exists|k: int| 0 <= k < spam_words().len() && occurs_in(#[trigger] spam_words()[k], s)
}

/// At least four characters, and either all equal or alternating two
/// characters (`ABAB...`).
pub open spec fn repetitive(s: Seq<char>) -> bool {
    s.len() >= 4 && ((forall|i: int| 0 <= i < s.len() ==> #[trigger] s[i] == s[0]) || (forall|i: int|
        0 <= i < s.len() ==> #[trigger] s[i] == s[i % 2]))
}

pub open spec fn code_ok(s: Seq<char>) -> bool {
    code_shape_ok(s) && !has_spam_word(s) && !repetitive(s)
}

pub open spec fn in_range(v: Option<u64>, lo: nat, hi: nat) -> bool {
    v is Some && lo <= v->0 && v->0 <= hi
}

pub open spec fn is_label_char(c: char) -> bool {
    is_alnum(c) || c == '-'
}

/// One DNS label: `[a-zA-Z0-9][a-zA-Z0-9-]{0,61}[a-zA-Z0-9]?`.
pub open spec fn label_ok(l: Seq<char>) -> bool {
    &&& 1 <= l.len() <= 63
    &&& is_alnum(l[0])
    &&& forall|i: int| 1 <= i < l.len() ==> is_label_char(#[trigger] l[i])
    &&& l.len() == 63 ==> is_alnum(l[62])
}

/// The pieces of `d` between dots.
pub open spec fn split_dots(d: Seq<char>) -> Seq<Seq<char>>
    decreases d.len(),
{
    if d.len() == 0 {
        seq![Seq::empty()]
    } else {
        let p = split_dots(d.drop_last());
        if d.last() == '.' {
            p.push(Seq::empty())
        } else {
            p.update(p.len() - 1, p.last().push(d.last()))
        }
    }
}

/// Labels separated by dots.
pub open spec fn domain_shape_ok(d: Seq<char>) -> bool {
    forall|i: int| 0 <= i < split_dots(d).len() ==> label_ok(#[trigger] split_dots(d)[i])
}

pub open spec fn domain_ok(d: Seq<char>) -> bool {
    4 <= d.len() <= 253 && domain_shape_ok(d)
}

/// A failed gate.
#[derive(Clone, Copy, Debug, PartialEq, Eq, Structural)]
pub enum ValidationError {
    Code,
    Discount,
    Dates,
    Merchant,
}

pub struct Validator {
    /// Smallest accepted value, in hundredths.
    pub min_discount_value: u64,
    /// Largest accepted percentage, in hundredths.
    pub max_discount_percentage: u64,
    /// How far in the future an expiry may lie.
    pub max_future_days: i64,
}

pub open spec fn discount_ok(v: Validator, t: DiscountType, value: Option<u64>) -> bool {
    match t {
        DiscountType::Percentage => in_range(value, v.min_discount_value as nat, v.max_discount_percentage as nat),
        DiscountType::Fixed => in_range(value, v.min_discount_value as nat, 1_000_000),
        DiscountType::FreeShipping | DiscountType::Bogo => true,
        DiscountType::CashBack => in_range(value, v.min_discount_value as nat, 10_000),
        DiscountType::Points => in_range(value, 100, 10_000_000),
        DiscountType::Unknown => false,
    }
}

/// Not expired, not too far ahead, already started, and ordered.
pub open spec fn dates_ok(v: Validator, c: RawCoupon, now: i64) -> bool {
    &&& c.valid_until is Some ==> {
        &&& c.valid_until->0 >= now
        &&& c.valid_until->0 - now <= v.max_future_days * (SECONDS_PER_DAY as int)
    }
    &&& c.valid_from is Some ==> {
        &&& c.valid_from->0 <= now
        &&& c.valid_until is Some ==> c.valid_from->0 < c.valid_until->0
    }
}

pub open spec fn merchant_ok(c: RawCoupon) -> bool {
    1 <= c.merchant_name@.len() <= 100 && domain_ok(c.merchant_domain@)
}

/// The gates that `c` fails at time `now`, in gate order.
pub open spec fn failed_gates(v: Validator, c: RawCoupon, now: i64) -> Seq<ValidationError> {
    (if code_ok(c.code@) { Seq::empty() } else { seq![ValidationError::Code] })
    + (if discount_ok(v, c.discount_type, c.discount_value) { Seq::empty() } else { seq![ValidationError::Discount] })
    + (if dates_ok(v, c, now) { Seq::empty() } else { seq![ValidationError::Dates] })
    + (if merchant_ok(c) { Seq::empty() } else { seq![ValidationError::Merchant] })
}

pub open spec fn coupon_ok(v: Validator, c: RawCoupon, now: i64) -> bool {
    code_ok(c.code@) && discount_ok(v, c.discount_type, c.discount_value) && dates_ok(v, c, now) && merchant_ok(c)
}

/// The four gates, judged on what a record says.
pub open spec fn view_ok(v: Validator, c: CouponView, now: i64) -> bool {
    &&& code_ok(c.code)
    &&& discount_ok(v, c.discount_type, c.discount_value)
    &&& c.valid_until is Some ==> {
        &&& c.valid_until->0 >= now
        &&& c.valid_until->0 - now <= v.max_future_days * (SECONDS_PER_DAY as int)
    }
    &&& c.valid_from is Some ==> {
        &&& c.valid_from->0 <= now
        &&& c.valid_until is Some ==> c.valid_from->0 < c.valid_until->0
    }
    &&& 1 <= c.merchant_name.len() <= 100
    &&& domain_ok(c.merchant_domain)
}

/// A record is accepted exactly when no gate fails, and every reason given
/// names one of the four gates, each at most once.
pub proof fn lemma_accepted_iff_no_failed_gate(v: Validator, c: RawCoupon, now: i64)
    ensures
        coupon_ok(v, c, now) <==> failed_gates(v, c, now).len() == 0,
        failed_gates(v, c, now).len() <= 4,
        failed_gates(v, c, now).contains(ValidationError::Code) <==> !code_ok(c.code@),
        failed_gates(v, c, now).contains(ValidationError::Discount) <==> !discount_ok(v, c.discount_type, c.discount_value),
        failed_gates(v, c, now).contains(ValidationError::Dates) <==> !dates_ok(v, c, now),
        failed_gates(v, c, now).contains(ValidationError::Merchant) <==> !merchant_ok(c),
{
    let a: Seq<ValidationError> = if code_ok(c.code@) { Seq::empty() } else { seq![ValidationError::Code] };
    let b: Seq<ValidationError> = if discount_ok(v, c.discount_type, c.discount_value) { Seq::empty() } else { seq![ValidationError::Discount] };
    let d: Seq<ValidationError> = if dates_ok(v, c, now) { Seq::empty() } else { seq![ValidationError::Dates] };
    let m: Seq<ValidationError> = if merchant_ok(c) { Seq::empty() } else { seq![ValidationError::Merchant] };
    let f = failed_gates(v, c, now);
    assert(f == a + b + d + m);
    assert forall|e: ValidationError| f.contains(e) <==> (a.contains(e) || b.contains(e) || d.contains(e) || m.contains(e)) by {
        if f.contains(e) {
            let i = choose|i: int| 0 <= i < f.len() && f[i] == e;
            if i < a.len() {
                assert(a[i] == e);
            } else if i < a.len() + b.len() {
                assert(b[i - a.len()] == e);
            } else if i < a.len() + b.len() + d.len() {
                assert(d[i - a.len() - b.len()] == e);
            } else {
                assert(m[i - a.len() - b.len() - d.len()] == e);
            }
        }
        if a.contains(e) {
            assert(f[0] == a[0]);
        }
        if b.contains(e) {
            assert(f[a.len() as int] == b[0]);
        }
        if d.contains(e) {
            assert(f[(a.len() + b.len()) as int] == d[0]);
        }
        if m.contains(e) {
            assert(f[(a.len() + b.len() + d.len()) as int] == m[0]);
        }
    }
    assert(a.contains(ValidationError::Code) <==> !code_ok(c.code@)) by {
        if !code_ok(c.code@) {
            assert(a[0] == ValidationError::Code);
        }
    }
    assert(b.contains(ValidationError::Discount) <==> !discount_ok(v, c.discount_type, c.discount_value)) by {
        if !discount_ok(v, c.discount_type, c.discount_value) {
            assert(b[0] == ValidationError::Discount);
        }
    }
    assert(d.contains(ValidationError::Dates) <==> !dates_ok(v, c, now)) by {
        if !dates_ok(v, c, now) {
            assert(d[0] == ValidationError::Dates);
        }
    }
    assert(m.contains(ValidationError::Merchant) <==> !merchant_ok(c)) by {
        if !merchant_ok(c) {
            assert(m[0] == ValidationError::Merchant);
        }
    }
}

/// Records that the validator judged.
pub struct ValidationResult {
    pub coupon: RawCoupon,
    pub is_valid: bool,
    pub validation_errors: Vec<ValidationError>,
}

fn is_upper_or_digit_exec(c: char) -> (r: bool)
    ensures
        r == is_upper_or_digit(c),
{
    ('A' <= c && c <= 'Z') || ('0' <= c && c <= '9')
}

fn is_alnum_exec(c: char) -> (r: bool)
    ensures
        r == is_alnum(c),
{
    ('A' <= c && c <= 'Z') || ('a' <= c && c <= 'z') || ('0' <= c && c <= '9')
}

fn spam_word_list() -> (r: Vec<Vec<char>>)
    ensures
        r@.len() == spam_words().len(),
        forall|k: int| 0 <= k < r@.len() ==> #[trigger] r@[k]@ == spam_words()[k],
{
    let r = vec![
        vec!['T', 'E', 'S', 'T'],
        vec!['D', 'E', 'M', 'O'],
        vec!['E', 'X', 'A', 'M', 'P', 'L', 'E'],
        vec!['F', 'A', 'K', 'E'],
        vec!['I', 'N', 'V', 'A', 'L', 'I', 'D'],
    ];
    assert(r@[0]@ =~= spam_words()[0]);
    assert(r@[1]@ =~= spam_words()[1]);
    assert(r@[2]@ =~= spam_words()[2]);
    assert(r@[3]@ =~= spam_words()[3]);
    assert(r@[4]@ =~= spam_words()[4]);
    r
}

/// Checks one label: `[a-zA-Z0-9][a-zA-Z0-9-]{0,61}[a-zA-Z0-9]?`.
fn label_ok_exec(l: &Vec<char>) -> (r: bool)
    ensures
        r == label_ok(l@),
{
    if l.len() < 1 || l.len() > 63 {
        return false;
    }
    if !is_alnum_exec(l[0]) {
        return false;
    }
    let mut i: usize = 1;
    while i < l.len()
        invariant
            1 <= i <= l.len(),
            forall|k: int| 1 <= k < i ==> is_label_char(#[trigger] l@[k]),
        decreases l.len() - i,
    {
        if !(is_alnum_exec(l[i]) || l[i] == '-') {
            return false;
        }
        i += 1;
    }
    if l.len() == 63 && !is_alnum_exec(l[62]) {
        return false;
    }
    true
}

fn gate_list(v: &Validator, c: &RawCoupon, now: i64) -> (r: Vec<ValidationError>)
    ensures
        r@ == failed_gates(*v, *c, now),
{
    let mut r: Vec<ValidationError> = Vec::new();
    if !v.validate_code(c.code.as_str()) {
        r.push(ValidationError::Code);
    }
    if !v.validate_discount(&c.discount_type, c.discount_value) {
        r.push(ValidationError::Discount);
    }
    if !v.validate_dates(c, now) {
        r.push(ValidationError::Dates);
    }
    if !v.validate_merchant(c) {
        r.push(ValidationError::Merchant);
    }
    assert(r@ =~= failed_gates(*v, *c, now));
    r
}

impl Validator {
    /// The default policy.
    pub open spec fn new_spec() -> Validator {
        Validator { min_discount_value: 100, max_discount_percentage: 9900, max_future_days: 365 }
    }

    pub fn new() -> (r: Self)
        ensures
            r == Validator::new_spec(),
            r.min_discount_value == 100,
            r.max_discount_percentage == 9900,
            r.max_future_days == 365,
    {
        Validator { min_discount_value: 100, max_discount_percentage: 9900, max_future_days: 365 }
    }

    /// Whether the record passes all four gates at time `now` (seconds).
    pub fn is_valid(&self, coupon: &RawCoupon, now: i64) -> (r: bool)
        ensures
            r == coupon_ok(*self, *coupon, now),
            r <==> failed_gates(*self, *coupon, now).len() == 0,
    {
        proof {
            lemma_accepted_iff_no_failed_gate(*self, *coupon, now);
        }
        if !self.validate_code(coupon.code.as_str()) {
            return false;
        }
        if !self.validate_discount(&coupon.discount_type, coupon.discount_value) {
            return false;
        }
        if !self.validate_dates(coupon, now) {
            return false;
        }
        if !self.validate_merchant(coupon) {
            return false;
        }
        true
    }

    /// The code gate.
    pub fn validate_code(&self, code: &str) -> (r: bool)
        ensures
            r == code_ok(code@),
    {
        let cs = chars_of(code);
        if cs.len() < 3 || cs.len() > 50 {
            return false;
        }
        let mut i: usize = 0;
        while i < cs.len()
            invariant
                i <= cs.len(),
                cs@ == code@,
                forall|k: int| 0 <= k < i ==> is_upper_or_digit(#[trigger] cs@[k]),
            decreases cs.len() - i,
        {
            if !is_upper_or_digit_exec(cs[i]) {
                assert(!is_upper_or_digit(code@[i as int]));
                return false;
            }
            i += 1;
        }
        let words = spam_word_list();
        let mut k: usize = 0;
        while k < words.len()
            invariant
                k <= words.len(),
                cs@ == code@,
                words@.len() == spam_words().len(),
                forall|m: int| 0 <= m < words@.len() ==> #[trigger] words@[m]@ == spam_words()[m],
                forall|m: int| 0 <= m < k ==> !occurs_in(#[trigger] spam_words()[m], cs@),
            decreases words.len() - k,
        {
            assert(words@[k as int]@ == spam_words()[k as int]);
            if contains_chars(&cs, &words[k]) {
                assert(occurs_in(spam_words()[k as int], code@));
                assert(has_spam_word(code@));
                return false;
            }
            k += 1;
        }
        !self.has_repetitive_pattern(code)
    }

    /// `ABAB` or `AAAA` shapes of at least four characters.
    pub fn has_repetitive_pattern(&self, code: &str) -> (r: bool)
        ensures
            r == repetitive(code@),
    {
        let cs = chars_of(code);
        if cs.len() < 4 {
            return false;
        }
        let mut all_same = true;
        let mut alternating = true;
        let mut i: usize = 0;
        while i < cs.len()
            invariant
                i <= cs.len(),
                cs.len() >= 4,
                all_same == forall|k: int| 0 <= k < i ==> #[trigger] cs@[k] == cs@[0],
                alternating == forall|k: int| 0 <= k < i ==> #[trigger] cs@[k] == cs@[k % 2],
            decreases cs.len() - i,
        {
            if cs[i] != cs[0] {
                all_same = false;
            }
            if cs[i] != cs[i % 2] {
                alternating = false;
            }
            i += 1;
        }
        all_same || alternating
    }

    /// The discount gate; values are in hundredths.
    pub fn validate_discount(&self, discount_type: &DiscountType, value: Option<u64>) -> (r: bool)
        ensures
            r == discount_ok(*self, *discount_type, value),
    {
        let (lo, hi) = match discount_type {
            DiscountType::Percentage => (self.min_discount_value, self.max_discount_percentage),
            DiscountType::Fixed => (self.min_discount_value, 1_000_000),
            DiscountType::FreeShipping | DiscountType::Bogo => {
                return true;
            },
            DiscountType::CashBack => (self.min_discount_value, 10_000),
            DiscountType::Points => (100, 10_000_000),
            DiscountType::Unknown => {
                return false;
            },
        };
        match value {
            Some(v) => lo <= v && v <= hi,
            None => false,
        }
    }

    /// The date gate at time `now` (seconds).
    pub fn validate_dates(&self, coupon: &RawCoupon, now: i64) -> (r: bool)
        ensures
            r == dates_ok(*self, *coupon, now),
    {
        if let Some(valid_until) = coupon.valid_until {
            if valid_until < now {
                return false;
            }
            let ahead: i128 = (valid_until as i128) - (now as i128);
            assert(-0x1_0000_0000_0000_0000_0000 <= (self.max_future_days as int) * 86_400 <= 0x1_0000_0000_0000_0000_0000) by (nonlinear_arith)
                requires -0x8000_0000_0000_0000 <= self.max_future_days <= 0x7fff_ffff_ffff_ffff;
            let limit: i128 = (self.max_future_days as i128) * (SECONDS_PER_DAY as i128);
            if ahead > limit {
                return false;
            }
        }
        if let Some(valid_from) = coupon.valid_from {
            if valid_from > now {
                return false;
            }
            if let Some(valid_until) = coupon.valid_until {
                if valid_from >= valid_until {
                    return false;
                }
            }
        }
        true
    }

    /// The merchant gate.
    pub fn validate_merchant(&self, coupon: &RawCoupon) -> (r: bool)
        ensures
            r == merchant_ok(*coupon),
    {
        let n = coupon.merchant_name.as_str().unicode_len();
        if n == 0 || n > 100 {
            return false;
        }
        self.is_valid_domain(coupon.merchant_domain.as_str())
    }

    /// Length in `[4, 253]` and dot-separated labels.
    pub fn is_valid_domain(&self, domain: &str) -> (r: bool)
        ensures
            r == domain_ok(domain@),
    {
        let d = chars_of(domain);
        if d.len() < 4 || d.len() > 253 {
            return false;
        }
        let mut cur: Vec<char> = Vec::new();
        let mut ok = true;
        let mut i: usize = 0;
        proof {
            assert(d@.take(0) =~= Seq::<char>::empty());
            assert(split_dots(d@.take(0)) == seq![Seq::<char>::empty()]);
        }
        while i < d.len()
            invariant
                i <= d.len(),
                split_dots(d@.take(i as int)).len() >= 1,
                cur@ == split_dots(d@.take(i as int)).last(),
                ok == forall|k: int| 0 <= k < split_dots(d@.take(i as int)).len() - 1 ==> label_ok(#[trigger] split_dots(d@.take(i as int))[k]),
            decreases d.len() - i,
        {
            let ghost before = split_dots(d@.take(i as int));
            proof {
                assert(d@.take(i + 1).drop_last() =~= d@.take(i as int));
                assert(d@.take(i + 1).last() == d@[i as int]);
            }
            if d[i] == '.' {
                if !label_ok_exec(&cur) {
                    ok = false;
                }
                cur = Vec::new();
                proof {
                    let after = split_dots(d@.take(i + 1));
                    assert(after == before.push(Seq::<char>::empty()));
                    assert(cur@ =~= after.last());
                    if ok {
                        assert forall|k: int| 0 <= k < after.len() - 1 implies label_ok(#[trigger] after[k]) by {
                            if k < before.len() - 1 {
                                assert(after[k] == before[k]);
                            } else {
                                assert(after[k] == before.last());
                            }
                        }
                    } else {
                        if label_ok(before.last()) {
                            let k = choose|k: int| 0 <= k < before.len() - 1 && !label_ok(#[trigger] before[k]);
                            assert(after[k] == before[k]);
                        } else {
                            assert(after[before.len() - 1] == before.last());
                        }
                    }
                }
            } else {
                cur.push(d[i]);
                proof {
                    let after = split_dots(d@.take(i + 1));
                    assert(after == before.update(before.len() - 1, before.last().push(d@[i as int])));
                    assert(cur@ =~= after.last());
                    assert forall|k: int| 0 <= k < after.len() - 1 implies after[k] == before[k] by {}
                }
            }
            i += 1;
        }
        let last_ok = label_ok_exec(&cur);
        proof {
            assert(d@.take(d.len() as int) =~= d@);
            let parts = split_dots(d@);
            if ok && last_ok {
                assert forall|k: int| 0 <= k < parts.len() implies label_ok(#[trigger] parts[k]) by {
                    if k == parts.len() - 1 {
                        assert(parts[k] == parts.last());
                    }
                }
            } else if !last_ok {
                assert(!label_ok(parts[parts.len() - 1]));
            } else {
                let k = choose|k: int| 0 <= k < parts.len() - 1 && !label_ok(#[trigger] parts[k]);
            }
        }
        ok && last_ok
    }

    /// Judges each record; the reasons list the failed gates in order.
    pub fn validate_batch(&self, coupons: Vec<RawCoupon>, now: i64) -> (r: Vec<ValidationResult>)
        ensures
            r@.len() == coupons@.len(),
            forall|i: int| 0 <= i < r@.len() ==> {
                &&& (#[trigger] r@[i]).coupon == coupons@[i]
                &&& r@[i].is_valid == coupon_ok(*self, coupons@[i], now)
                &&& r@[i].validation_errors@ == failed_gates(*self, coupons@[i], now)
            },
    {
        let ghost s = coupons@;
        let mut rest = coupons;
        let mut out: Vec<ValidationResult> = Vec::new();
        while rest.len() > 0
            invariant
                rest.len() <= s.len(),
                rest@ == s.subrange(s.len() - rest.len(), s.len() as int),
                out@.len() == s.len() - rest.len(),
                forall|i: int| 0 <= i < out@.len() ==> {
                    &&& (#[trigger] out@[i]).coupon == s[i]
                    &&& out@[i].is_valid == coupon_ok(*self, s[i], now)
                    &&& out@[i].validation_errors@ == failed_gates(*self, s[i], now)
                },
            decreases rest.len(),
        {
            let coupon = rest.remove(0);
            let is_valid = self.is_valid(&coupon, now);
            let validation_errors = if !is_valid {
                self.get_validation_errors(&coupon, now)
            } else {
                Vec::new()
            };
            assert(validation_errors@ =~= failed_gates(*self, coupon, now));
            out.push(ValidationResult { coupon, is_valid, validation_errors });
            assert(rest@ =~= s.subrange(s.len() - rest.len(), s.len() as int));
        }
        out
    }

    /// The gates the record fails, in gate order.
    pub fn get_validation_errors(&self, coupon: &RawCoupon, now: i64) -> (r: Vec<ValidationError>)
        ensures
            r@ == failed_gates(*self, *coupon, now),
    {
        gate_list(self, coupon, now)
    }
}

} // verus!
