//! Extraction of coupon records from fetched content: HTML, JSON, CSV and
//! plain text.
use vstd::prelude::*;
use crate::fetcher::{ContentType, classify, trim_start_of, detect_content_type};
use crate::rate_limiter::{entry_index, find_entry};
use crate::coupon::{RawCoupon, DiscountType, SourceType, JsonValue, CouponView, views, opt_view, lemma_views_push};
use crate::patterns::{Pattern, first_match, first_match_exec, code_spans, code_spans_exec, skip_spaces, skip_spaces_exec};
use crate::text::{chars_of, chars_equal, string_from_chars, to_upper, to_lower, trim, upper_of, lower_of, trim_of, hundredths_of, parse_hundredths, is_space, is_space_exec};

verus! {

/// Characters of context taken on each side of a code found in text.
pub const CONTEXT_CHARS: usize = 200;

pub open spec fn context_of(t: Seq<char>, a: int, b: int) -> Seq<char> {
    let s = if a >= CONTEXT_CHARS { a - CONTEXT_CHARS } else { 0 };
    let e = if b + CONTEXT_CHARS <= t.len() { b + CONTEXT_CHARS } else { t.len() as int };
    t.subrange(s, e)
}

pub open spec fn percent_title(d: Seq<char>) -> Seq<char> {
    d + seq!['%', ' ', 'O', 'f', 'f']
}

pub open spec fn fixed_title(d: Seq<char>) -> Seq<char> {
    seq!['$'] + d + seq![' ', 'O', 'f', 'f']
}

pub open spec fn coupon_code_title(code: Seq<char>) -> Seq<char> {
    seq!['C', 'o', 'u', 'p', 'o', 'n', ' ', 'C', 'o', 'd', 'e', ':', ' '] + code
}

/// Title, type and value found in a context: a percentage off, else (when
/// that gives no value) a fixed amount off.
pub open spec fn discount_of(c: Seq<char>) -> (Option<Seq<char>>, DiscountType, Option<u64>) {
    let p = match first_match(Pattern::Percent, c, 0) {
        Some(m) => {
            let d = c.subrange(m.0, m.1);
            (Some(percent_title(d)), DiscountType::Percentage, hundredths_of(d))
        },
        None => (None, DiscountType::Unknown, None),
    };
    if p.2 is None {
        match first_match(Pattern::Fixed, c, 0) {
            Some(m) => {
                let d = c.subrange(m.0, m.1);
                (Some(fixed_title(d)), DiscountType::Fixed, hundredths_of(d))
            },
            None => p,
        }
    } else {
        p
    }
}

pub open spec fn minimum_of(c: Seq<char>) -> Option<u64> {
    match first_match(Pattern::Minimum, c, 0) {
        Some(m) => hundredths_of(c.subrange(m.0, m.1)),
        None => None,
    }
}

/// The record for the code found at `a..b` of `t`.
pub open spec fn text_coupon(t: Seq<char>, a: int, b: int, url: Seq<char>, domain: Seq<char>, now: i64) -> CouponView {
    let code = upper_of(t.subrange(a, b));
    let c = context_of(t, a, b);
    let info = discount_of(c);
    CouponView {
        code,
        title: match info.0 {
            Some(x) => x,
            None => coupon_code_title(code),
        },
        description: Some(trim_of(c)),
        discount_type: info.1,
        discount_value: info.2,
        minimum_order: minimum_of(c),
        maximum_discount: None,
        valid_from: None,
        valid_until: None,
        merchant_name: domain,
        merchant_domain: domain,
        source_url: url,
        source_type: SourceType::WebScraping,
        scraped_at: now,
    }
}

/// One record per code found in the text, in order.
pub open spec fn text_coupons(t: Seq<char>, url: Seq<char>, domain: Seq<char>, now: i64) -> Seq<CouponView> {
    code_spans(t, 0).map_values(|m: (int, int)| text_coupon(t, m.0, m.1, url, domain, now))
}

/// The characters of `t` from `a` to `b`.
pub fn slice_chars(t: &Vec<char>, a: usize, b: usize) -> (r: Vec<char>)
    requires
        a <= b <= t@.len(),
    ensures
        r@ == t@.subrange(a as int, b as int),
{
    let mut r: Vec<char> = Vec::new();
    let mut i = a;
    while i < b
        invariant
            a <= i <= b <= t@.len(),
            r@ == t@.subrange(a as int, i as int),
        decreases b - i,
    {
        r.push(t[i]);
        i += 1;
        assert(r@ =~= t@.subrange(a as int, i as int));
    }
    r
}

fn push_all(out: &mut Vec<char>, s: &Vec<char>)
    ensures
        final(out)@ == old(out)@ + s@,
{
    let mut i: usize = 0;
    let ghost start = out@;
    while i < s.len()
        invariant
            i <= s@.len(),
            out@ == start + s@.subrange(0, i as int),
        decreases s@.len() - i,
    {
        out.push(s[i]);
        i += 1;
        assert(out@ =~= start + s@.subrange(0, i as int));
    }
    assert(s@.subrange(0, s@.len() as int) =~= s@);
}

/// Title, type, value, minimum and description found around a code.
pub struct DiscountInfo {
    pub title: Option<String>,
    pub description: Option<String>,
    pub discount_type: DiscountType,
    pub discount_value: Option<u64>,
    pub minimum_order: Option<u64>,
}

/// Reads the discount details of a context window.
pub fn find_discount_info(context: &Vec<char>) -> (r: DiscountInfo)
    ensures
        opt_view(r.title) == discount_of(context@).0,
        r.discount_type == discount_of(context@).1,
        r.discount_value == discount_of(context@).2,
        r.minimum_order == minimum_of(context@),
        opt_view(r.description) == Some(trim_of(context@)),
{
    let mut title: Option<String> = None;
    let mut discount_type = DiscountType::Unknown;
    let mut discount_value: Option<u64> = None;
    match first_match_exec(Pattern::Percent, context) {
        Some((a, b)) => {
            let d = slice_chars(context, a, b);
            let mut t = d.clone();
            t.push('%');
            t.push(' ');
            t.push('O');
            t.push('f');
            t.push('f');
            assert(t@ =~= percent_title(d@));
            title = Some(string_from_chars(&t));
            discount_type = DiscountType::Percentage;
            discount_value = parse_hundredths(&d);
        },
        None => {},
    }
    if discount_value.is_none() {
        match first_match_exec(Pattern::Fixed, context) {
            Some((a, b)) => {
                let d = slice_chars(context, a, b);
                let mut t: Vec<char> = vec!['$'];
                push_all(&mut t, &d);
                t.push(' ');
                t.push('O');
                t.push('f');
                t.push('f');
                assert(t@ =~= fixed_title(d@));
                title = Some(string_from_chars(&t));
                discount_type = DiscountType::Fixed;
                discount_value = parse_hundredths(&d);
            },
            None => {},
        }
    }
    let minimum_order = match first_match_exec(Pattern::Minimum, context) {
        Some((a, b)) => {
            let d = slice_chars(context, a, b);
            parse_hundredths(&d)
        },
        None => None,
    };
    let whole = string_from_chars(context);
    let description = Some(trim(whole.as_str()));
    DiscountInfo { title, description, discount_type, discount_value, minimum_order }
}

/// The empty structured value `{}`.
pub fn empty_metadata() -> (r: JsonValue)
    ensures
        r is Object && r->Object_0@.len() == 0,
{
    JsonValue::Object(Vec::new())
}

/// One record per code found in `text`.
pub fn extract_from_text(text: &str, source_url: &str, domain: &str, now: i64) -> (r: Vec<RawCoupon>)
    ensures
        views(r@) == text_coupons(text@, source_url@, domain@, now),
        forall|i: int| 0 <= i < r@.len() ==> (#[trigger] r@[i]).metadata is Object && r@[i].metadata->Object_0@.len() == 0,
{
    let t = chars_of(text);
    let spans = code_spans_exec(&t);
    let ghost target = text_coupons(text@, source_url@, domain@, now);
    let mut out: Vec<RawCoupon> = Vec::new();
    let mut k: usize = 0;
    while k < spans.len()
        invariant
            t@ == text@,
            k <= spans@.len(),
            spans@.len() == code_spans(t@, 0).len(),
            forall|j: int| 0 <= j < spans@.len() ==> (#[trigger] spans@[j]).0 as int == code_spans(t@, 0)[j].0 && spans@[j].1 as int == code_spans(t@, 0)[j].1,
            forall|j: int| 0 <= j < spans@.len() ==> (#[trigger] spans@[j]).0 < spans@[j].1 <= t@.len(),
            target == text_coupons(text@, source_url@, domain@, now),
            target.len() == spans@.len(),
            out@.len() == k,
            forall|i: int| 0 <= i < out@.len() ==> (#[trigger] out@[i]).metadata is Object && out@[i].metadata->Object_0@.len() == 0,
            views(out@) == target.subrange(0, k as int),
        decreases spans@.len() - k,
    {
        let (a, b) = spans[k];
        let raw = slice_chars(&t, a, b);
        let raw_text = string_from_chars(&raw);
        let code = to_upper(raw_text.as_str());
        let s = if a >= CONTEXT_CHARS { a - CONTEXT_CHARS } else { 0 };
        let e = if t.len() >= CONTEXT_CHARS && b <= t.len() - CONTEXT_CHARS { b + CONTEXT_CHARS } else { t.len() };
        let context = slice_chars(&t, s, e);
        let info = find_discount_info(&context);
        let title = match info.title {
            Some(x) => x,
            None => {
                let mut v: Vec<char> = vec!['C', 'o', 'u', 'p', 'o', 'n', ' ', 'C', 'o', 'd', 'e', ':', ' '];
                let cc = chars_of(code.as_str());
                push_all(&mut v, &cc);
                assert(v@ =~= coupon_code_title(code@));
                string_from_chars(&v)
            },
        };
        let coupon = RawCoupon {
            code,
            title,
            description: info.description,
            discount_type: info.discount_type,
            discount_value: info.discount_value,
            minimum_order: info.minimum_order,
            maximum_discount: None,
            valid_from: None,
            valid_until: None,
            merchant_name: domain.to_owned(),
            merchant_domain: domain.to_owned(),
            source_url: source_url.to_owned(),
            source_type: SourceType::WebScraping,
            metadata: empty_metadata(),
            scraped_at: now,
        };
        proof {
            let m = code_spans(t@, 0)[k as int];
            assert(m == (a as int, b as int));
            assert(context@ == context_of(t@, a as int, b as int));
            let tc = text_coupon(t@, a as int, b as int, source_url@, domain@, now);
            assert(raw@ == t@.subrange(a as int, b as int));
            assert(coupon@.code == tc.code);
            assert(coupon@.title == tc.title);
            assert(coupon@.description == tc.description);
            assert(coupon@.discount_type == tc.discount_type);
            assert(coupon@.discount_value == tc.discount_value);
            assert(coupon@.minimum_order == tc.minimum_order);
            assert(coupon@.merchant_name == tc.merchant_name);
            assert(coupon@ == tc);
            let sp = code_spans(text@, 0);
            assert(sp[k as int] == (a as int, b as int));
            assert(target[k as int] == text_coupon(text@, sp[k as int].0, sp[k as int].1, source_url@, domain@, now));
            assert(target[k as int] == tc);
        }
        let ghost prev = out@;
        out.push(coupon);
        proof {
            assert(out@ == prev.push(out@[k as int]));
            assert forall|j: int| 0 <= j < k + 1 implies #[trigger] views(out@)[j] == target.subrange(0, k + 1)[j] by {
                if j < k {
                    assert(out@[j] == prev[j]);
                    assert(views(prev)[j] == target.subrange(0, k as int)[j]);
                }
            }
        }
        k += 1;
        assert(views(out@) =~= target.subrange(0, k as int));
    }
    assert(target.subrange(0, k as int) =~= target);
    out
}

/// The records of a CSV document after its header row, or `None` when a
/// record does not parse.
pub uninterp spec fn csv_rows(content: Seq<char>) -> Option<Seq<Seq<Seq<char>>>>;

/// Relies on `csv::ReaderBuilder` (header row, records of any length): the
/// fields of each record after the header, or `None` at the first record
/// that fails to parse.
#[verifier::external_body]
fn read_csv_records(content: &str) -> (r: Option<Vec<Vec<String>>>)
    ensures
        r is None <==> csv_rows(content@) is None,
        r is Some ==> csv_rows(content@) == Some(r->0.deep_view()),
{
    let mut reader = csv::ReaderBuilder::new().flexible(true).from_reader(content.as_bytes());
    let mut rows: Vec<Vec<String>> = Vec::new();
    for record in reader.records() {
        match record {
            Ok(fields) => rows.push(fields.iter().map(String::from).collect()),
            Err(_) => return None,
        }
    }
    Some(rows)
}

pub open spec fn lit_percentage() -> Seq<char> {
    seq!['p', 'e', 'r', 'c', 'e', 'n', 't', 'a', 'g', 'e']
}

pub open spec fn lit_percent() -> Seq<char> {
    seq!['p', 'e', 'r', 'c', 'e', 'n', 't']
}

pub open spec fn lit_fixed() -> Seq<char> {
    seq!['f', 'i', 'x', 'e', 'd']
}

pub open spec fn lit_amount() -> Seq<char> {
    seq!['a', 'm', 'o', 'u', 'n', 't']
}

pub open spec fn lit_free_shipping() -> Seq<char> {
    seq!['f', 'r', 'e', 'e', '_', 's', 'h', 'i', 'p', 'p', 'i', 'n', 'g']
}

pub open spec fn lit_shipping() -> Seq<char> {
    seq!['s', 'h', 'i', 'p', 'p', 'i', 'n', 'g']
}

/// The discount type a CSV type column names (already trimmed and lower
/// cased).
pub open spec fn csv_type(s: Seq<char>) -> DiscountType {
    if s == lit_percentage() || s == lit_percent() || s == seq!['%'] {
        DiscountType::Percentage
    } else if s == lit_fixed() || s == lit_amount() || s == seq!['$'] {
        DiscountType::Fixed
    } else if s == lit_free_shipping() || s == lit_shipping() {
        DiscountType::FreeShipping
    } else {
        DiscountType::Unknown
    }
}

/// The record a CSV row gives: code, title, type and value by position;
/// none for a row of fewer than two fields or with an empty code.
pub open spec fn csv_coupon(rec: Seq<Seq<char>>, url: Seq<char>, domain: Seq<char>, now: i64) -> Option<CouponView> {
    if rec.len() < 2 || upper_of(trim_of(rec[0])).len() == 0 {
        None
    } else {
        Some(
            CouponView {
                code: upper_of(trim_of(rec[0])),
                title: trim_of(rec[1]),
                description: None,
                discount_type: if rec.len() > 2 {
                    csv_type(lower_of(trim_of(rec[2])))
                } else {
                    DiscountType::Unknown
                },
                discount_value: if rec.len() > 3 {
                    hundredths_of(trim_of(rec[3]))
                } else {
                    None
                },
                minimum_order: None,
                maximum_discount: None,
                valid_from: None,
                valid_until: None,
                merchant_name: domain,
                merchant_domain: domain,
                source_url: url,
                source_type: SourceType::WebScraping,
                scraped_at: now,
            },
        )
    }
}

pub open spec fn csv_coupons(rows: Seq<Seq<Seq<char>>>, url: Seq<char>, domain: Seq<char>, now: i64) -> Seq<CouponView>
    decreases rows.len(),
{
    if rows.len() == 0 {
        Seq::empty()
    } else {
        let p = csv_coupons(rows.drop_last(), url, domain, now);
        match csv_coupon(rows.last(), url, domain, now) {
            Some(c) => p.push(c),
            None => p,
        }
    }
}

fn csv_type_exec(s: &Vec<char>) -> (r: DiscountType)
    ensures
        r == csv_type(s@),
{
    let percentage = vec!['p', 'e', 'r', 'c', 'e', 'n', 't', 'a', 'g', 'e'];
    let percent = vec!['p', 'e', 'r', 'c', 'e', 'n', 't'];
    let pct = vec!['%'];
    let fixed = vec!['f', 'i', 'x', 'e', 'd'];
    let amount = vec!['a', 'm', 'o', 'u', 'n', 't'];
    let dollar = vec!['$'];
    let free_shipping = vec!['f', 'r', 'e', 'e', '_', 's', 'h', 'i', 'p', 'p', 'i', 'n', 'g'];
    let shipping = vec!['s', 'h', 'i', 'p', 'p', 'i', 'n', 'g'];
    assert(percentage@ =~= lit_percentage());
    assert(percent@ =~= lit_percent());
    assert(pct@ =~= seq!['%']);
    assert(fixed@ =~= lit_fixed());
    assert(amount@ =~= lit_amount());
    assert(dollar@ =~= seq!['$']);
    assert(free_shipping@ =~= lit_free_shipping());
    assert(shipping@ =~= lit_shipping());
    if chars_equal(s, &percentage) || chars_equal(s, &percent) || chars_equal(s, &pct) {
        DiscountType::Percentage
    } else if chars_equal(s, &fixed) || chars_equal(s, &amount) || chars_equal(s, &dollar) {
        DiscountType::Fixed
    } else if chars_equal(s, &free_shipping) || chars_equal(s, &shipping) {
        DiscountType::FreeShipping
    } else {
        DiscountType::Unknown
    }
}

/// The record of one CSV row; `None` for rows of fewer than two fields or
/// with an empty code.
pub fn parse_csv_record(record: &Vec<String>, source_url: &str, domain: &str, now: i64) -> (r: Option<RawCoupon>)
    ensures
        match csv_coupon(record.deep_view(), source_url@, domain@, now) {
            None => r is None,
            Some(c) => r is Some && r->0@ == c,
        },
        r is Some ==> r->0.metadata is Object && r->0.metadata->Object_0@.len() == 0,
{
    let ghost rec = record.deep_view();
    assert(rec.len() == record@.len());
    if record.len() < 2 {
        return None;
    }
    assert(rec[0] == record@[0]@ && rec[1] == record@[1]@);
    let code_text = trim(record[0].as_str());
    let code = to_upper(code_text.as_str());
    if code.as_str().unicode_len() == 0 {
        return None;
    }
    let title = trim(record[1].as_str());
    let discount_type = if record.len() > 2 {
        assert(rec[2] == record@[2]@);
        let t = trim(record[2].as_str());
        let l = to_lower(t.as_str());
        let lc = chars_of(l.as_str());
        csv_type_exec(&lc)
    } else {
        DiscountType::Unknown
    };
    let discount_value = if record.len() > 3 {
        assert(rec[3] == record@[3]@);
        let t = trim(record[3].as_str());
        let tc = chars_of(t.as_str());
        parse_hundredths(&tc)
    } else {
        None
    };
    Some(RawCoupon {
        code,
        title,
        description: None,
        discount_type,
        discount_value,
        minimum_order: None,
        maximum_discount: None,
        valid_from: None,
        valid_until: None,
        merchant_name: domain.to_owned(),
        merchant_domain: domain.to_owned(),
        source_url: source_url.to_owned(),
        source_type: SourceType::WebScraping,
        metadata: empty_metadata(),
        scraped_at: now,
    })
}

/// The records of every CSV row that has at least two fields.
pub fn coupons_from_csv_rows(rows: &Vec<Vec<String>>, source_url: &str, domain: &str, now: i64) -> (r: Vec<RawCoupon>)
    ensures
        views(r@) == csv_coupons(rows.deep_view(), source_url@, domain@, now),
{
    let ghost all = rows.deep_view();
    let mut out: Vec<RawCoupon> = Vec::new();
    let mut i: usize = 0;
    while i < rows.len()
        invariant
            i <= rows@.len(),
            all == rows.deep_view(),
            all.len() == rows@.len(),
            views(out@) == csv_coupons(all.take(i as int), source_url@, domain@, now),
        decreases rows@.len() - i,
    {
        assert(all.take(i + 1).drop_last() =~= all.take(i as int));
        assert(all.take(i + 1).last() == rows@[i as int].deep_view());
        match parse_csv_record(&rows[i], source_url, domain, now) {
            Some(c) => {
                proof {
                    lemma_views_push(out@, c);
                }
                out.push(c);
            },
            None => {},
        }
        i += 1;
    }
    assert(all.take(all.len() as int) =~= all);
    out
}

/// Why content yielded no records.
#[derive(Clone, Copy, Debug, PartialEq, Eq, Structural)]
pub enum ParseError {
    /// The source URL does not parse.
    InvalidUrl,
    /// JSON content that is not a JSON document.
    InvalidJson,
    /// CSV content with a record that does not parse.
    InvalidCsv,
}

/// Every CSV row with at least two fields becomes a record.
pub fn parse_csv(content: &str, source_url: &str, domain: &str, now: i64) -> (r: Result<Vec<RawCoupon>, ParseError>)
    ensures
        match csv_rows(content@) {
            None => r == Err::<Vec<RawCoupon>, ParseError>(ParseError::InvalidCsv),
            Some(rows) => r is Ok && views(r->Ok_0@) == csv_coupons(rows, source_url@, domain@, now),
        },
{
    match read_csv_records(content) {
        None => Err(ParseError::InvalidCsv),
        Some(rows) => Ok(coupons_from_csv_rows(&rows, source_url, domain, now)),
    }
}

#[verifier::external_type_specification]
#[verifier::external_body]
pub struct ExJsonDocument(serde_json::Value);

/// The JSON document that `text` holds, as a tree with numbers kept as
/// their text; `None` when the text is not JSON.
pub uninterp spec fn json_doc(text: Seq<char>) -> Option<JsonValue>;

/// Relies on `serde_json::from_str` into `serde_json::Value`, converted by
/// `json_tree`: the document, or `None` when the text is not JSON.
#[verifier::external_body]
fn parse_json_document(text: &str) -> (r: Option<JsonValue>)
    ensures
        r == json_doc(text@),
{
    match serde_json::from_str::<serde_json::Value>(text) {
        Ok(v) => Some(json_tree(&v)),
        Err(_) => None,
    }
}

/// Conversion used by `parse_json_document`: the same tree, each number kept
/// as the text its `Display` gives.
#[verifier::external_body]
fn json_tree(v: &serde_json::Value) -> (r: JsonValue) {
    match v {
        serde_json::Value::Null => JsonValue::Null,
        serde_json::Value::Bool(b) => JsonValue::Bool(*b),
        serde_json::Value::Number(n) => JsonValue::Number(n.to_string()),
        serde_json::Value::String(s) => JsonValue::Str(s.clone()),
        serde_json::Value::Array(a) => JsonValue::Array(a.iter().map(json_tree).collect()),
        serde_json::Value::Object(o) => JsonValue::Object(o.iter().map(|(k, x)| (k.clone(), json_tree(x))).collect()),
    }
}

/// The value of the first entry named `key`.
pub open spec fn obj_get(es: Seq<(String, JsonValue)>, key: Seq<char>) -> Option<JsonValue>
    decreases es.len(),
{
    if es.len() == 0 {
        None
    } else if es[0].0@ == key {
        Some(es[0].1)
    } else {
        obj_get(es.drop_first(), key)
    }
}

/// The first of three keys that is present.
pub open spec fn first_present(es: Seq<(String, JsonValue)>, k1: Seq<char>, k2: Seq<char>, k3: Seq<char>) -> Option<JsonValue> {
    match obj_get(es, k1) {
        Some(v) => Some(v),
        None => match obj_get(es, k2) {
            Some(v) => Some(v),
            None => obj_get(es, k3),
        },
    }
}

pub open spec fn json_str(v: Option<JsonValue>) -> Option<Seq<char>> {
    match v {
        Some(JsonValue::Str(s)) => Some(s@),
        _ => None,
    }
}

pub open spec fn json_amount(v: Option<JsonValue>) -> Option<u64> {
    match v {
        Some(JsonValue::Number(n)) => hundredths_of(n@),
        _ => None,
    }
}

pub open spec fn key_code() -> Seq<char> { seq!['c', 'o', 'd', 'e'] }
pub open spec fn key_coupon_code() -> Seq<char> { seq!['c', 'o', 'u', 'p', 'o', 'n', 'C', 'o', 'd', 'e'] }
pub open spec fn key_promo_code() -> Seq<char> { seq!['p', 'r', 'o', 'm', 'o', 'C', 'o', 'd', 'e'] }
pub open spec fn key_title() -> Seq<char> { seq!['t', 'i', 't', 'l', 'e'] }
pub open spec fn key_name() -> Seq<char> { seq!['n', 'a', 'm', 'e'] }
pub open spec fn key_description() -> Seq<char> { seq!['d', 'e', 's', 'c', 'r', 'i', 'p', 't', 'i', 'o', 'n'] }
pub open spec fn key_discount_value() -> Seq<char> { seq!['d', 'i', 's', 'c', 'o', 'u', 'n', 't', 'V', 'a', 'l', 'u', 'e'] }
pub open spec fn key_minimum_order() -> Seq<char> { seq!['m', 'i', 'n', 'i', 'm', 'u', 'm', 'O', 'r', 'd', 'e', 'r'] }
pub open spec fn literal_coupon() -> Seq<char> { seq!['C', 'o', 'u', 'p', 'o', 'n'] }
pub open spec fn literal_unknown() -> Seq<char> { seq!['U', 'n', 'k', 'n', 'o', 'w', 'n'] }

/// The keys of an object that may hold a list of candidates, in the order
/// they are read.
pub open spec fn list_keys() -> Seq<Seq<char>> {
    seq![
        seq!['c', 'o', 'u', 'p', 'o', 'n', 's'],
        seq!['d', 'e', 'a', 'l', 's'],
        seq!['o', 'f', 'f', 'e', 'r', 's'],
        seq!['p', 'r', 'o', 'm', 'o', 't', 'i', 'o', 'n', 's'],
        seq!['d', 'a', 't', 'a'],
        seq!['r', 'e', 's', 'u', 'l', 't', 's'],
    ]
}

/// The record a JSON candidate gives: an object with a string code.
pub open spec fn json_coupon(item: JsonValue, url: Seq<char>, domain: Seq<char>, now: i64) -> Option<CouponView> {
    match item {
        JsonValue::Object(entries) => {
            let es = entries@;
            match json_str(first_present(es, key_code(), key_coupon_code(), key_promo_code())) {
                None => None,
                Some(c) => if upper_of(c).len() == 0 {
                    None
                } else {
                    Some(
                    CouponView {
                        code: upper_of(c),
                        title: match json_str(first_present(es, key_title(), key_name(), key_description())) {
                            Some(t) => t,
                            None => literal_coupon(),
                        },
                        description: json_str(obj_get(es, key_description())),
                        discount_type: DiscountType::Unknown,
                        discount_value: json_amount(obj_get(es, key_discount_value())),
                        minimum_order: json_amount(obj_get(es, key_minimum_order())),
                        maximum_discount: None,
                        valid_from: None,
                        valid_until: None,
                        merchant_name: literal_unknown(),
                        merchant_domain: domain,
                        source_url: url,
                        source_type: SourceType::AffiliateApi,
                        scraped_at: now,
                    },
                )
                },
            }
        },
        _ => None,
    }
}

pub open spec fn json_candidates(items: Seq<JsonValue>, url: Seq<char>, domain: Seq<char>, now: i64) -> Seq<CouponView>
    decreases items.len(),
{
    if items.len() == 0 {
        Seq::empty()
    } else {
        let p = json_candidates(items.drop_last(), url, domain, now);
        match json_coupon(items.last(), url, domain, now) {
            Some(c) => p.push(c),
            None => p,
        }
    }
}

pub open spec fn key_coupons(es: Seq<(String, JsonValue)>, key: Seq<char>, url: Seq<char>, domain: Seq<char>, now: i64) -> Seq<CouponView> {
    match obj_get(es, key) {
        Some(JsonValue::Array(items)) => json_candidates(items@, url, domain, now),
        _ => Seq::empty(),
    }
}

pub open spec fn object_coupons(es: Seq<(String, JsonValue)>, keys: Seq<Seq<char>>, url: Seq<char>, domain: Seq<char>, now: i64) -> Seq<CouponView>
    decreases keys.len(),
{
    if keys.len() == 0 {
        Seq::empty()
    } else {
        key_coupons(es, keys[0], url, domain, now) + object_coupons(es, keys.drop_first(), url, domain, now)
    }
}

/// Records of a JSON document: each element of a top-level array, or of
/// the arrays under the list keys of a top-level object.
pub open spec fn json_coupons(v: JsonValue, url: Seq<char>, domain: Seq<char>, now: i64) -> Seq<CouponView> {
    match v {
        JsonValue::Array(items) => json_candidates(items@, url, domain, now),
        JsonValue::Object(entries) => object_coupons(entries@, list_keys(), url, domain, now),
        _ => Seq::empty(),
    }
}

/// Position of the first entry named `key`.
fn find_key(es: &Vec<(String, JsonValue)>, key: &Vec<char>) -> (r: Option<usize>)
    ensures
        r is None <==> obj_get(es@, key@) is None,
        r is Some ==> (r->0) < es@.len() && obj_get(es@, key@) == Some(es@[r->0 as int].1) && es@[r->0 as int].0@ == key@,
{
    let mut i: usize = 0;
    assert(es@.subrange(0, es@.len() as int) =~= es@);
    while i < es.len()
        invariant
            i <= es@.len(),
            obj_get(es@, key@) == obj_get(es@.subrange(i as int, es@.len() as int), key@),
        decreases es@.len() - i,
    {
        let ghost rest = es@.subrange(i as int, es@.len() as int);
        assert(rest.drop_first() =~= es@.subrange(i + 1, es@.len() as int));
        let name = chars_of(es[i].0.as_str());
        if chars_equal(&name, key) {
            return Some(i);
        }
        i += 1;
    }
    None
}

proof fn lemma_obj_get_update(es: Seq<(String, JsonValue)>, i: int, v: JsonValue, key: Seq<char>)
    requires
        0 <= i < es.len(),
        es[i].0@ != key,
    ensures
        obj_get(es.update(i, (es[i].0, v)), key) == obj_get(es, key),
    decreases es.len(),
{
    let u = es.update(i, (es[i].0, v));
    if i == 0 {
        assert(u.drop_first() =~= es.drop_first());
    } else {
        if es[0].0@ != key {
            assert(u.drop_first() =~= es.drop_first().update(i - 1, (es[i].0, v)));
            lemma_obj_get_update(es.drop_first(), i - 1, v, key);
        }
    }
}

fn str_entry(es: &Vec<(String, JsonValue)>, idx: Option<usize>) -> (r: Option<String>)
    requires
        idx is Some ==> (idx->0) < es@.len(),
    ensures
        opt_view(r) == json_str(
            match idx {
                Some(i) => Some(es@[i as int].1),
                None => None,
            },
        ),
{
    match idx {
        Some(i) => match &es[i].1 {
            JsonValue::Str(s) => Some(s.clone()),
            _ => None,
        },
        None => None,
    }
}

fn amount_entry(es: &Vec<(String, JsonValue)>, idx: Option<usize>) -> (r: Option<u64>)
    requires
        idx is Some ==> (idx->0) < es@.len(),
    ensures
        r == json_amount(
            match idx {
                Some(i) => Some(es@[i as int].1),
                None => None,
            },
        ),
{
    match idx {
        Some(i) => match &es[i].1 {
            JsonValue::Number(n) => {
                let t = chars_of(n.as_str());
                parse_hundredths(&t)
            },
            _ => None,
        },
        None => None,
    }
}

/// Position of the first of three keys that is present.
fn first_present_index(es: &Vec<(String, JsonValue)>, k1: &Vec<char>, k2: &Vec<char>, k3: &Vec<char>) -> (r: Option<usize>)
    ensures
        r is Some ==> (r->0) < es@.len(),
        first_present(es@, k1@, k2@, k3@) == match r {
            Some(i) => Some(es@[i as int].1),
            None => None,
        },
{
    match find_key(es, k1) {
        Some(i) => Some(i),
        None => match find_key(es, k2) {
            Some(i) => Some(i),
            None => find_key(es, k3),
        },
    }
}

/// The record of one JSON candidate; the candidate itself is kept as the
/// record's metadata.
pub fn extract_coupon_from_json(item: JsonValue, source_url: &str, domain: &str, now: i64) -> (r: Option<RawCoupon>)
    ensures
        match json_coupon(item, source_url@, domain@, now) {
            None => r is None,
            Some(c) => r is Some && r->0@ == c,
        },
        r is Some ==> r->0.metadata == item,
{
    let code = vec!['c', 'o', 'd', 'e'];
    let coupon_code = vec!['c', 'o', 'u', 'p', 'o', 'n', 'C', 'o', 'd', 'e'];
    let promo_code = vec!['p', 'r', 'o', 'm', 'o', 'C', 'o', 'd', 'e'];
    let title_key = vec!['t', 'i', 't', 'l', 'e'];
    let name_key = vec!['n', 'a', 'm', 'e'];
    let description_key = vec!['d', 'e', 's', 'c', 'r', 'i', 'p', 't', 'i', 'o', 'n'];
    let value_key = vec!['d', 'i', 's', 'c', 'o', 'u', 'n', 't', 'V', 'a', 'l', 'u', 'e'];
    let minimum_key = vec!['m', 'i', 'n', 'i', 'm', 'u', 'm', 'O', 'r', 'd', 'e', 'r'];
    assert(code@ =~= key_code());
    assert(coupon_code@ =~= key_coupon_code());
    assert(promo_code@ =~= key_promo_code());
    assert(title_key@ =~= key_title());
    assert(name_key@ =~= key_name());
    assert(description_key@ =~= key_description());
    assert(value_key@ =~= key_discount_value());
    assert(minimum_key@ =~= key_minimum_order());
    let (raw_code, title, description, discount_value, minimum_order) = match &item {
        JsonValue::Object(es) => {
            let ci = first_present_index(es, &code, &coupon_code, &promo_code);
            let raw_code = match str_entry(es, ci) {
                Some(c) => c,
                None => {
                    return None;
                },
            };
            let ti = first_present_index(es, &title_key, &name_key, &description_key);
            let title = match str_entry(es, ti) {
                Some(t) => t,
                None => {
                    let v = vec!['C', 'o', 'u', 'p', 'o', 'n'];
                    assert(v@ =~= literal_coupon());
                    string_from_chars(&v)
                },
            };
            let di = find_key(es, &description_key);
            let description = str_entry(es, di);
            let vi = find_key(es, &value_key);
            let discount_value = amount_entry(es, vi);
            let mi = find_key(es, &minimum_key);
            let minimum_order = amount_entry(es, mi);
            (raw_code, title, description, discount_value, minimum_order)
        },
        _ => {
            return None;
        },
    };
    let code = to_upper(raw_code.as_str());
    if code.as_str().unicode_len() == 0 {
        return None;
    }
    let unknown = vec!['U', 'n', 'k', 'n', 'o', 'w', 'n'];
    assert(unknown@ =~= literal_unknown());
    let coupon = RawCoupon {
        code,
        title,
        description,
        discount_type: DiscountType::Unknown,
        discount_value,
        minimum_order,
        maximum_discount: None,
        valid_from: None,
        valid_until: None,
        merchant_name: string_from_chars(&unknown),
        merchant_domain: domain.to_owned(),
        source_url: source_url.to_owned(),
        source_type: SourceType::AffiliateApi,
        metadata: item,
        scraped_at: now,
    };
    Some(coupon)
}

/// Records of the candidates in `items`, in order.
fn coupons_from_items(items: Vec<JsonValue>, source_url: &str, domain: &str, now: i64) -> (r: Vec<RawCoupon>)
    ensures
        views(r@) == json_candidates(items@, source_url@, domain@, now),
{
    let ghost s = items@;
    let mut rest = items;
    let mut out: Vec<RawCoupon> = Vec::new();
    while rest.len() > 0
        invariant
            rest.len() <= s.len(),
            rest@ == s.subrange(s.len() - rest.len(), s.len() as int),
            views(out@) == json_candidates(s.subrange(0, s.len() - rest.len()), source_url@, domain@, now),
        decreases rest.len(),
    {
        let ghost done = s.subrange(0, s.len() - rest.len());
        let item = rest.remove(0);
        let ghost now_done = s.subrange(0, s.len() - rest.len());
        assert(now_done.drop_last() =~= done);
        assert(now_done.last() == item);
        match extract_coupon_from_json(item, source_url, domain, now) {
            Some(c) => {
                proof {
                    lemma_views_push(out@, c);
                }
                out.push(c);
            },
            None => {},
        }
        assert(rest@ =~= s.subrange(s.len() - rest.len(), s.len() as int));
    }
    assert(s.subrange(0, s.len() as int) =~= s);
    out
}

fn list_key_vecs() -> (r: Vec<Vec<char>>)
    ensures
        r@.len() == list_keys().len(),
        forall|k: int| 0 <= k < r@.len() ==> #[trigger] r@[k]@ == list_keys()[k],
{
    let r = vec![
        vec!['c', 'o', 'u', 'p', 'o', 'n', 's'],
        vec!['d', 'e', 'a', 'l', 's'],
        vec!['o', 'f', 'f', 'e', 'r', 's'],
        vec!['p', 'r', 'o', 'm', 'o', 't', 'i', 'o', 'n', 's'],
        vec!['d', 'a', 't', 'a'],
        vec!['r', 'e', 's', 'u', 'l', 't', 's'],
    ];
    assert(r@[0]@ =~= list_keys()[0]);
    assert(r@[1]@ =~= list_keys()[1]);
    assert(r@[2]@ =~= list_keys()[2]);
    assert(r@[3]@ =~= list_keys()[3]);
    assert(r@[4]@ =~= list_keys()[4]);
    assert(r@[5]@ =~= list_keys()[5]);
    r
}

/// Records of a JSON document (see `json_coupons`).
pub fn coupons_from_json(value: JsonValue, source_url: &str, domain: &str, now: i64) -> (r: Vec<RawCoupon>)
    ensures
        views(r@) == json_coupons(value, source_url@, domain@, now),
{
    match value {
        JsonValue::Array(items) => coupons_from_items(items, source_url, domain, now),
        JsonValue::Object(entries) => {
            let ghost orig = entries@;
            let keys = list_key_vecs();
            let ghost ks = list_keys();
            proof {
                assert(ks.len() == 6);
                assert(ks[0] != ks[1] && ks[0] != ks[2] && ks[0] != ks[3] && ks[0] != ks[4] && ks[0] != ks[5]) by {
                    assert(ks[0].len() == 7 && ks[1].len() == 5 && ks[2][0] == 'o' && ks[3].len() == 10 && ks[4].len() == 4 && ks[5][0] == 'r');
                }
                assert(ks[1] != ks[2] && ks[1] != ks[3] && ks[1] != ks[4] && ks[1] != ks[5]) by {
                    assert(ks[1].len() == 5 && ks[2].len() == 6 && ks[3].len() == 10 && ks[4].len() == 4 && ks[5].len() == 7);
                }
                assert(ks[2] != ks[3] && ks[2] != ks[4] && ks[2] != ks[5]) by {
                    assert(ks[2].len() == 6 && ks[3].len() == 10 && ks[4].len() == 4 && ks[5].len() == 7);
                }
                assert(ks[3] != ks[4] && ks[3] != ks[5] && ks[4] != ks[5]) by {
                    assert(ks[3].len() == 10 && ks[4].len() == 4 && ks[5].len() == 7);
                }
            }
            let mut es = entries;
            let mut out: Vec<RawCoupon> = Vec::new();
            let mut j: usize = 0;
            assert(ks.subrange(0, 6) =~= ks);
            assert(views(out@) =~= Seq::<CouponView>::empty());
            assert(Seq::<CouponView>::empty() + object_coupons(orig, ks, source_url@, domain@, now) =~= object_coupons(orig, ks, source_url@, domain@, now));
            while j < keys.len()
                invariant
                    keys@.len() == 6,
                    ks == list_keys(),
                    ks.len() == 6,
                    forall|k: int| 0 <= k < 6 ==> #[trigger] keys@[k]@ == ks[k],
                    forall|x: int, y: int| 0 <= x < y < 6 ==> #[trigger] ks[x] != #[trigger] ks[y],
                    j <= 6,
                    forall|m: int| j <= m < 6 ==> #[trigger] obj_get(es@, ks[m]) == obj_get(orig, ks[m]),
                    views(out@) + object_coupons(orig, ks.subrange(j as int, 6), source_url@, domain@, now) == object_coupons(orig, ks, source_url@, domain@, now),
                decreases 6 - j,
            {
                let ghost before = out@;
                assert(ks.subrange(j as int, 6).drop_first() =~= ks.subrange(j + 1, 6));
                assert(ks.subrange(j as int, 6)[0] == ks[j as int]);
                let idx = find_key(&es, &keys[j]);
                let mut found: Vec<RawCoupon> = Vec::new();
                match idx {
                    Some(i) => {
                        let is_list = match &es[i].1 {
                            JsonValue::Array(_) => true,
                            _ => false,
                        };
                        if is_list {
                            let ghost es_before = es@;
                            let (name, list) = es.remove(i);
                            es.insert(i, (name, JsonValue::Null));
                            proof {
                                assert(es@ == es_before.update(i as int, (es_before[i as int].0, JsonValue::Null)));
                                assert forall|m: int| j < m < 6 implies #[trigger] obj_get(es@, ks[m]) == obj_get(orig, ks[m]) by {
                                    assert(es_before[i as int].0@ == ks[j as int]);
                                    assert(ks[j as int] != ks[m]);
                                    lemma_obj_get_update(es_before, i as int, JsonValue::Null, ks[m]);
                                }
                            }
                            match list {
                                JsonValue::Array(items) => {
                                    found = coupons_from_items(items, source_url, domain, now);
                                },
                                _ => {},
                            }
                        }
                    },
                    None => {},
                }
                assert(views(found@) == key_coupons(orig, ks[j as int], source_url@, domain@, now));
                let ghost fv = views(found@);
                out.append(&mut found);
                proof {
                    assert(views(out@) =~= views(before) + fv);
                    assert(views(out@) + object_coupons(orig, ks.subrange(j + 1, 6), source_url@, domain@, now) =~= views(before) + object_coupons(orig, ks.subrange(j as int, 6), source_url@, domain@, now));
                }
                j += 1;
            }
            assert(object_coupons(orig, ks.subrange(6, 6), source_url@, domain@, now) == Seq::<CouponView>::empty());
            assert(views(out@) + Seq::<CouponView>::empty() =~= views(out@));
            out
        },
        _ => Vec::new(),
    }
}

/// Records of JSON content; `InvalidJson` when the text is not JSON.
pub fn parse_json(content: &str, source_url: &str, domain: &str, now: i64) -> (r: Result<Vec<RawCoupon>, ParseError>)
    ensures
        match json_doc(content@) {
            None => r == Err::<Vec<RawCoupon>, ParseError>(ParseError::InvalidJson),
            Some(doc) => r is Ok && views(r->Ok_0@) == json_coupons(doc, source_url@, domain@, now),
        },
{
    match parse_json_document(content) {
        None => Err(ParseError::InvalidJson),
        Some(doc) => Ok(coupons_from_json(doc, source_url, domain, now)),
    }
}

/// What the extractors read of an HTML element.
#[derive(Debug)]
pub struct HtmlElement {
    /// `data-coupon-code`
    pub coupon_code_attr: Option<String>,
    /// `data-clipboard-text`
    pub clipboard_attr: Option<String>,
    /// `data-title`
    pub data_title_attr: Option<String>,
    /// `title`
    pub title_attr: Option<String>,
    /// The element's text content.
    pub text: String,
}

pub struct HtmlElementView {
    pub coupon_code_attr: Option<Seq<char>>,
    pub clipboard_attr: Option<Seq<char>>,
    pub data_title_attr: Option<Seq<char>>,
    pub title_attr: Option<Seq<char>>,
    pub text: Seq<char>,
}

impl View for HtmlElement {
    type V = HtmlElementView;

    open spec fn view(&self) -> HtmlElementView {
        HtmlElementView {
            coupon_code_attr: opt_view(self.coupon_code_attr),
            clipboard_attr: opt_view(self.clipboard_attr),
            data_title_attr: opt_view(self.data_title_attr),
            title_attr: opt_view(self.title_attr),
            text: self.text@,
        }
    }
}

/// The elements of an HTML document that a CSS selector matches, in
/// document order.
pub uninterp spec fn html_select(document: Seq<char>, selector: Seq<char>) -> Seq<HtmlElementView>;

/// The text content of an HTML document.
pub uninterp spec fn html_text(document: Seq<char>) -> Seq<char>;

/// Relies on `scraper`: `Html::parse_document`, `Selector::parse`,
/// `Html::select`, `ElementRef::attr` and `ElementRef::text`.
#[verifier::external_body]
fn select_elements(document: &str, selector: &str) -> (r: Vec<HtmlElement>)
    ensures
        r@.map_values(|e: HtmlElement| e@) == html_select(document@, selector@),
{
    let doc = scraper::Html::parse_document(document);
    let mut out = Vec::new();
    if let Ok(sel) = scraper::Selector::parse(selector) {
        for e in doc.select(&sel) {
            let a = |n: &str| e.attr(n).map(String::from);
            out.push(HtmlElement {
                coupon_code_attr: a("data-coupon-code"),
                clipboard_attr: a("data-clipboard-text"),
                data_title_attr: a("data-title"),
                title_attr: a("title"),
                text: e.text().collect(),
            });
        }
    }
    out
}

/// Relies on `scraper`: the text of the root element of the parsed document.
#[verifier::external_body]
fn document_text(document: &str) -> (r: String)
    ensures
        r@ == html_text(document@),
{
    scraper::Html::parse_document(document).root_element().text().collect()
}

/// Length of the run of non-space characters at `j`.
pub open spec fn word_run(t: Seq<char>, j: int) -> nat
    decreases t.len() - j,
{
    if 0 <= j < t.len() && !is_space(t[j]) {
        1 + word_run(t, j + 1)
    } else {
        0
    }
}

/// The first whitespace-delimited word of `t`.
pub open spec fn first_word(t: Seq<char>) -> Option<Seq<char>> {
    let i = skip_spaces(t, 0);
    if i >= t.len() {
        None
    } else {
        Some(t.subrange(i, i + word_run(t, i)))
    }
}

pub open spec fn literal_coupon_code() -> Seq<char> {
    seq!['C', 'o', 'u', 'p', 'o', 'n', ' ', 'C', 'o', 'd', 'e']
}

/// The record an HTML element gives: its code from `data-coupon-code`,
/// `data-clipboard-text` or the first word of its text, upper-cased, of 3 to
/// 50 characters.
pub open spec fn element_coupon(e: HtmlElementView, url: Seq<char>, domain: Seq<char>, now: i64) -> Option<CouponView> {
    let raw = match e.coupon_code_attr {
        Some(c) => Some(c),
        None => match e.clipboard_attr {
            Some(c) => Some(c),
            None => first_word(e.text),
        },
    };
    match raw {
        None => None,
        Some(r) => {
            let code = upper_of(r);
            if code.len() < 3 || code.len() > 50 {
                None
            } else {
                Some(
                    CouponView {
                        code,
                        title: match e.data_title_attr {
                            Some(t) => t,
                            None => match e.title_attr {
                                Some(t) => t,
                                None => literal_coupon_code(),
                            },
                        },
                        description: None,
                        discount_type: DiscountType::Unknown,
                        discount_value: None,
                        minimum_order: None,
                        maximum_discount: None,
                        valid_from: None,
                        valid_until: None,
                        merchant_name: literal_unknown(),
                        merchant_domain: domain,
                        source_url: url,
                        source_type: SourceType::WebScraping,
                        scraped_at: now,
                    },
                )
            }
        },
    }
}

pub open spec fn element_coupons(es: Seq<HtmlElementView>, url: Seq<char>, domain: Seq<char>, now: i64) -> Seq<CouponView>
    decreases es.len(),
{
    if es.len() == 0 {
        Seq::empty()
    } else {
        let p = element_coupons(es.drop_last(), url, domain, now);
        match element_coupon(es.last(), url, domain, now) {
            Some(c) => p.push(c),
            None => p,
        }
    }
}

/// The first whitespace-delimited word of `t`.
fn first_word_exec(t: &Vec<char>) -> (r: Option<Vec<char>>)
    ensures
        match first_word(t@) {
            None => r is None,
            Some(w) => r is Some && r->0@ == w,
        },
{
    let i = skip_spaces_exec(t, 0);
    if i >= t.len() {
        return None;
    }
    let mut j = i;
    while j < t.len() && !is_space_exec(t[j])
        invariant
            i <= j <= t@.len(),
            word_run(t@, i as int) == (j - i) + word_run(t@, j as int),
        decreases t@.len() - j,
    {
        j += 1;
    }
    Some(slice_chars(t, i, j))
}

/// Turns a matched element into a record.
#[derive(Clone, Copy, Debug)]
pub struct CouponExtractor;

impl CouponExtractor {
    pub fn generic() -> (r: Self) {
        CouponExtractor
    }

    pub fn data_attribute() -> (r: Self) {
        CouponExtractor
    }

    pub fn retailmenot() -> (r: Self) {
        CouponExtractor
    }

    pub fn coupons_com() -> (r: Self) {
        CouponExtractor
    }

    /// The record of one element (see `element_coupon`).
    pub fn extract(&self, element: &HtmlElement, source_url: &str, domain: &str, now: i64) -> (r: Option<RawCoupon>)
        ensures
            match element_coupon(element@, source_url@, domain@, now) {
                None => r is None,
                Some(c) => r is Some && r->0@ == c,
            },
            r is Some ==> r->0.metadata is Object && r->0.metadata->Object_0@.len() == 0,
    {
        let raw: Vec<char> = match &element.coupon_code_attr {
            Some(c) => chars_of(c.as_str()),
            None => match &element.clipboard_attr {
                Some(c) => chars_of(c.as_str()),
                None => {
                    let t = chars_of(element.text.as_str());
                    match first_word_exec(&t) {
                        Some(w) => w,
                        None => {
                            return None;
                        },
                    }
                },
            },
        };
        let raw_text = string_from_chars(&raw);
        let code = to_upper(raw_text.as_str());
        let n = code.as_str().unicode_len();
        if n < 3 || n > 50 {
            return None;
        }
        let title = match &element.data_title_attr {
            Some(t) => t.clone(),
            None => match &element.title_attr {
                Some(t) => t.clone(),
                None => {
                    let v = vec!['C', 'o', 'u', 'p', 'o', 'n', ' ', 'C', 'o', 'd', 'e'];
                    assert(v@ =~= literal_coupon_code());
                    string_from_chars(&v)
                },
            },
        };
        let unknown = vec!['U', 'n', 'k', 'n', 'o', 'w', 'n'];
        assert(unknown@ =~= literal_unknown());
        Some(RawCoupon {
            code,
            title,
            description: None,
            discount_type: DiscountType::Unknown,
            discount_value: None,
            minimum_order: None,
            maximum_discount: None,
            valid_from: None,
            valid_until: None,
            merchant_name: string_from_chars(&unknown),
            merchant_domain: domain.to_owned(),
            source_url: source_url.to_owned(),
            source_type: SourceType::WebScraping,
            metadata: empty_metadata(),
            scraped_at: now,
        })
    }
}

/// Records of the elements that `selector` matches in `document`.
fn coupons_for_selector(extractor: &CouponExtractor, document: &str, selector: &str, source_url: &str, domain: &str, now: i64) -> (r: Vec<RawCoupon>)
    ensures
        views(r@) == element_coupons(html_select(document@, selector@), source_url@, domain@, now),
{
    let elements = select_elements(document, selector);
    let ghost es = html_select(document@, selector@);
    assert(es.len() == elements@.len());
    let mut out: Vec<RawCoupon> = Vec::new();
    let mut i: usize = 0;
    while i < elements.len()
        invariant
            i <= elements@.len(),
            es == html_select(document@, selector@),
            es == elements@.map_values(|e: HtmlElement| e@),
            views(out@) == element_coupons(es.take(i as int), source_url@, domain@, now),
        decreases elements@.len() - i,
    {
        assert(es.take(i + 1).drop_last() =~= es.take(i as int));
        assert(es.take(i + 1).last() == elements@[i as int]@);
        match extractor.extract(&elements[i], source_url, domain, now) {
            Some(c) => {
                proof {
                    lemma_views_push(out@, c);
                }
                out.push(c);
            },
            None => {},
        }
        i += 1;
    }
    assert(es.take(es.len() as int) =~= es);
    out
}

/// A set of CSS selectors, each with its extractor.
pub struct HtmlParser {
    pub selectors: Vec<(String, CouponExtractor)>,
}

pub open spec fn selector_coupons(sels: Seq<(String, CouponExtractor)>, document: Seq<char>, url: Seq<char>, domain: Seq<char>, now: i64) -> Seq<CouponView>
    decreases sels.len(),
{
    if sels.len() == 0 {
        Seq::empty()
    } else {
        selector_coupons(sels.drop_last(), document, url, domain, now) + element_coupons(
            html_select(document, sels.last().0@),
            url,
            domain,
            now,
        )
    }
}

impl HtmlParser {
    /// Elements whose class mentions `coupon-code`, elements with
    /// `data-coupon-code`, and `.promo-code, .discount-code`.
    pub fn generic() -> (r: Self)
        ensures
            r.selectors@.len() == 3,
            r.selectors@[0].0@ == "[class*='coupon-code']"@,
            r.selectors@[1].0@ == "[data-coupon-code]"@,
            r.selectors@[2].0@ == ".promo-code, .discount-code"@,
    {
        HtmlParser {
            selectors: vec![
                ("[class*='coupon-code']".to_string(), CouponExtractor::generic()),
                ("[data-coupon-code]".to_string(), CouponExtractor::data_attribute()),
                (".promo-code, .discount-code".to_string(), CouponExtractor::generic()),
            ],
        }
    }

    /// Elements with `data-clipboard-text`.
    pub fn retailmenot() -> (r: Self)
        ensures
            r.selectors@.len() == 1,
            r.selectors@[0].0@ == "[data-clipboard-text]"@,
    {
        HtmlParser { selectors: vec![("[data-clipboard-text]".to_string(), CouponExtractor::retailmenot())] }
    }

    /// Elements of class `coupon-item`.
    pub fn coupons_com() -> (r: Self)
        ensures
            r.selectors@.len() == 1,
            r.selectors@[0].0@ == ".coupon-item"@,
    {
        HtmlParser { selectors: vec![(".coupon-item".to_string(), CouponExtractor::coupons_com())] }
    }

    /// Records of every selector in turn.
    pub fn parse(&self, document: &str, source_url: &str, domain: &str, now: i64) -> (r: Vec<RawCoupon>)
        ensures
            views(r@) == selector_coupons(self.selectors@, document@, source_url@, domain@, now),
    {
        let mut out: Vec<RawCoupon> = Vec::new();
        let mut i: usize = 0;
        while i < self.selectors.len()
            invariant
                i <= self.selectors@.len(),
                views(out@) == selector_coupons(self.selectors@.take(i as int), document@, source_url@, domain@, now),
            decreases self.selectors@.len() - i,
        {
            assert(self.selectors@.take(i + 1).drop_last() =~= self.selectors@.take(i as int));
            let ghost before = views(out@);
            let mut found = coupons_for_selector(&self.selectors[i].1, document, self.selectors[i].0.as_str(), source_url, domain, now);
            let ghost fv = views(found@);
            out.append(&mut found);
            assert(views(out@) =~= before + fv);
            i += 1;
        }
        assert(self.selectors@.take(self.selectors@.len() as int) =~= self.selectors@);
        out
    }
}

/// Reads JSON documents.
#[derive(Clone, Copy, Debug)]
pub struct JsonParser;

impl JsonParser {
    pub fn generic() -> (r: Self) {
        JsonParser
    }

    /// Records of a parsed JSON document (see `json_coupons`).
    pub fn parse(&self, value: JsonValue, source_url: &str, domain: &str, now: i64) -> (r: Vec<RawCoupon>)
        ensures
            views(r@) == json_coupons(value, source_url@, domain@, now),
    {
        coupons_from_json(value, source_url, domain, now)
    }
}

/// The host of a URL: `None` when it does not parse, empty when it has no
/// host.
pub uninterp spec fn url_host(url: Seq<char>) -> Option<Seq<char>>;

/// Relies on `url::Url::parse` and `Url::host_str`: the host, empty when
/// the URL has none, `None` when it does not parse.
#[verifier::external_body]
fn url_host_of(url: &str) -> (r: Option<String>)
    ensures
        r is None <==> url_host(url@) is None,
        r is Some ==> url_host(url@) == Some(r->0@),
{
    match url::Url::parse(url) {
        Ok(u) => Some(u.host_str().unwrap_or("").to_string()),
        Err(_) => None,
    }
}

pub open spec fn key_generic() -> Seq<char> {
    seq!['g', 'e', 'n', 'e', 'r', 'i', 'c']
}

/// Records of the parser registered under `key`, if any.
pub open spec fn keyed_html_coupons(parsers: Seq<(String, HtmlParser)>, key: Seq<char>, document: Seq<char>, url: Seq<char>, domain: Seq<char>, now: i64) -> Seq<CouponView> {
    match entry_index(parsers, key) {
        Some(k) => selector_coupons(parsers[k].1.selectors@, document, url, domain, now),
        None => Seq::empty(),
    }
}

/// Records of an HTML page: the parser of its domain, the generic parser,
/// then the text pass over the page's text.
pub open spec fn html_coupons(parsers: Seq<(String, HtmlParser)>, document: Seq<char>, url: Seq<char>, domain: Seq<char>, now: i64) -> Seq<CouponView> {
    keyed_html_coupons(parsers, domain, document, url, domain, now) + keyed_html_coupons(
        parsers,
        key_generic(),
        document,
        url,
        domain,
        now,
    ) + text_coupons(html_text(document), url, domain, now)
}

/// Dispatches fetched content to the extractor of its kind.
pub struct Parser {
    pub html_parsers: Vec<(String, HtmlParser)>,
    pub json_parsers: Vec<(String, JsonParser)>,
}

impl Parser {
    pub fn new() -> (r: Self)
        ensures
            r.html_parsers@.len() == 3,
            r.html_parsers@[0].0@ == key_generic(),
            r.html_parsers@[1].0@ == "retailmenot.com"@,
            r.html_parsers@[2].0@ == "coupons.com"@,
            r.json_parsers@.len() == 1,
            r.json_parsers@[0].0@ == key_generic(),
    {
        Parser { html_parsers: Self::init_html_parsers(), json_parsers: Self::init_json_parsers() }
    }

    /// The generic parser and those of `retailmenot.com` and `coupons.com`.
    pub fn init_html_parsers() -> (r: Vec<(String, HtmlParser)>)
        ensures
            r@.len() == 3,
            r@[0].0@ == key_generic(),
            r@[1].0@ == "retailmenot.com"@,
            r@[2].0@ == "coupons.com"@,
            r@[0].1.selectors@.len() == 3,
            r@[1].1.selectors@[0].0@ == "[data-clipboard-text]"@,
            r@[2].1.selectors@[0].0@ == ".coupon-item"@,
    {
        proof {
            reveal_strlit("generic");
        }
        let mut parsers: Vec<(String, HtmlParser)> = Vec::new();
        let generic_key = "generic".to_string();
        assert(generic_key@ =~= key_generic());
        parsers.push((generic_key, HtmlParser::generic()));
        parsers.push(("retailmenot.com".to_string(), HtmlParser::retailmenot()));
        parsers.push(("coupons.com".to_string(), HtmlParser::coupons_com()));
        parsers
    }

    pub fn init_json_parsers() -> (r: Vec<(String, JsonParser)>)
        ensures
            r@.len() == 1,
            r@[0].0@ == key_generic(),
    {
        proof {
            reveal_strlit("generic");
        }
        let mut parsers: Vec<(String, JsonParser)> = Vec::new();
        let generic_key = "generic".to_string();
        assert(generic_key@ =~= key_generic());
        parsers.push((generic_key, JsonParser::generic()));
        parsers
    }

    /// What `extract_domain` returns, as values.
    pub open spec fn extract_domain_spec(url: Seq<char>) -> Result<Seq<char>, ParseError> {
        match url_host(url) {
            None => Err(ParseError::InvalidUrl),
            Some(h) => Ok(h),
        }
    }

    /// The host of `url`; `InvalidUrl` when it does not parse.
    pub fn extract_domain(url: &str) -> (r: Result<String, ParseError>)
        ensures
            match url_host(url@) {
                None => r == Err::<String, ParseError>(ParseError::InvalidUrl),
                Some(h) => r is Ok && r->Ok_0@ == h,
            },
    {
        match url_host_of(url) {
            Some(h) => Ok(h),
            None => Err(ParseError::InvalidUrl),
        }
    }

    fn keyed_html(&self, key: &str, content: &str, source_url: &str, domain: &str, now: i64) -> (r: Vec<RawCoupon>)
        ensures
            views(r@) == keyed_html_coupons(self.html_parsers@, key@, content@, source_url@, domain@, now),
    {
        match find_entry(&self.html_parsers, key) {
            Some(i) => self.html_parsers[i].1.parse(content, source_url, domain, now),
            None => Vec::new(),
        }
    }

    /// Records of an HTML page (see `html_coupons`).
    pub fn parse_html(&self, content: &str, source_url: &str, domain: &str, now: i64) -> (r: Vec<RawCoupon>)
        ensures
            views(r@) == html_coupons(self.html_parsers@, content@, source_url@, domain@, now),
    {
        let mut coupons = self.keyed_html(domain, content, source_url, domain, now);
        let generic_key = "generic";
        proof {
            reveal_strlit("generic");
            assert(generic_key@ =~= key_generic());
        }
        let ghost a = views(coupons@);
        let mut generic = self.keyed_html(generic_key, content, source_url, domain, now);
        let ghost b = views(generic@);
        coupons.append(&mut generic);
        let text = document_text(content);
        let mut from_text = extract_from_text(text.as_str(), source_url, domain, now);
        let ghost c = views(from_text@);
        coupons.append(&mut from_text);
        assert(views(coupons@) =~= a + b + c);
        coupons
    }

    /// Records of fetched content: the host of `source_url` becomes the
    /// merchant domain, and the content goes to the extractor of its kind.
    pub fn extract_coupons(&self, content: &str, source_url: &str, now: i64) -> (r: Result<Vec<RawCoupon>, ParseError>)
        ensures
            match url_host(source_url@) {
                None => r == Err::<Vec<RawCoupon>, ParseError>(ParseError::InvalidUrl),
                Some(d) => match classify(trim_start_of(content@)) {
                    ContentType::Html => r is Ok && views(r->Ok_0@) == html_coupons(self.html_parsers@, content@, source_url@, d, now),
                    ContentType::Json => match json_doc(content@) {
                        None => r == Err::<Vec<RawCoupon>, ParseError>(ParseError::InvalidJson),
                        Some(doc) => r is Ok && views(r->Ok_0@) == json_coupons(doc, source_url@, d, now),
                    },
                    ContentType::Csv => match csv_rows(content@) {
                        None => r == Err::<Vec<RawCoupon>, ParseError>(ParseError::InvalidCsv),
                        Some(rows) => r is Ok && views(r->Ok_0@) == csv_coupons(rows, source_url@, d, now),
                    },
                    ContentType::Unknown => r is Ok && views(r->Ok_0@) == text_coupons(content@, source_url@, d, now),
                },
            },
    {
        let domain = match Self::extract_domain(source_url) {
            Ok(d) => d,
            Err(e) => {
                return Err(e);
            },
        };
        match detect_content_type(content) {
            ContentType::Html => Ok(self.parse_html(content, source_url, domain.as_str(), now)),
            ContentType::Json => parse_json(content, source_url, domain.as_str(), now),
            ContentType::Csv => parse_csv(content, source_url, domain.as_str(), now),
            ContentType::Unknown => Ok(extract_from_text(content, source_url, domain.as_str(), now)),
        }
    }
}

} // verus!
