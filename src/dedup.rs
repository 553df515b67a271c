//! Layered deduplication of coupon records: exact listing keys, digests of
//! the key fields, and a weighted edit-distance similarity.
use vstd::prelude::*;
use crate::coupon::{RawCoupon, DiscountType, discount_tag};
use crate::text::{chars_of, string_from_chars};
use crate::rate_limiter::{entry_index, find_entry, keys_unique, lemma_entry_index_at};

verus! {

/// Similarity scores are integers in `0 ..= SIMILARITY_SCALE` (millionths).
pub const SIMILARITY_SCALE: u64 = 1_000_000;

/// The threshold the combined strategy applies within one merchant (0.85).
pub const COMBINED_FUZZY_THRESHOLD: u64 = 850_000;

pub open spec fn min3(a: nat, b: nat, c: nat) -> nat {
    if a <= b && a <= c {
        a
    } else if b <= c {
        b
    } else {
        c
    }
}

pub open spec fn max_len(s: Seq<char>, t: Seq<char>) -> nat {
    if s.len() >= t.len() {
        s.len()
    } else {
        t.len()
    }
}

/// Edit distance (insertions, deletions, substitutions) between `s` and `t`.
pub open spec fn lev(s: Seq<char>, t: Seq<char>) -> nat
    decreases s.len() + t.len(),
{
    if s.len() == 0 {
        t.len()
    } else if t.len() == 0 {
        s.len()
    } else {
        min3(
            lev(s.drop_last(), t.drop_last()) + (if s.last() == t.last() { 0nat } else { 1nat }),
            lev(s.drop_last(), t) + 1,
            lev(s, t.drop_last()) + 1,
        )
    }
}

/// `1 - lev(s, t) / max(|s|, |t|)` in millionths, rounded down; `1` for two
/// empty strings.
pub open spec fn levsim(s: Seq<char>, t: Seq<char>) -> nat {
    let m = max_len(s, t);
    if m == 0 {
        SIMILARITY_SCALE as nat
    } else {
        (((m - lev(s, t)) as nat) * (SIMILARITY_SCALE as nat) / m) as nat
    }
}

/// Both values present and equal (amounts are in hundredths, so this is
/// "closer than 0.01").
pub open spec fn values_close(a: Option<u64>, b: Option<u64>) -> bool {
    a is Some && b is Some && a->0 == b->0
}

/// Weighted similarity of two records, in millionths: 0.4 for the code,
/// 0.3 for the title, 0.2 for an equal discount type and 0.1 more when the
/// values also agree.
pub open spec fn similarity(a: RawCoupon, b: RawCoupon) -> nat {
    (4 * levsim(a.code@, b.code@) + 3 * levsim(a.title@, b.title@)) / 10 + if a.discount_type
        == b.discount_type {
        if values_close(a.discount_value, b.discount_value) {
            300_000nat
        } else {
            200_000nat
        }
    } else {
        0nat
    }
}

/// The edit distance never exceeds the longer length.
pub proof fn lemma_lev_at_most_max_len(s: Seq<char>, t: Seq<char>)
    ensures
        lev(s, t) <= max_len(s, t),
    decreases s.len() + t.len(),
{
    if s.len() > 0 && t.len() > 0 {
        lemma_lev_at_most_max_len(s.drop_last(), t.drop_last());
    }
}

/// The edit distance does not depend on the order of its arguments.
pub proof fn lemma_lev_symmetric(s: Seq<char>, t: Seq<char>)
    ensures
        lev(s, t) == lev(t, s),
    decreases s.len() + t.len(),
{
    if s.len() > 0 && t.len() > 0 {
        lemma_lev_symmetric(s.drop_last(), t.drop_last());
        lemma_lev_symmetric(s.drop_last(), t);
        lemma_lev_symmetric(s, t.drop_last());
    }
}

/// A string is at distance zero from itself.
pub proof fn lemma_lev_self(s: Seq<char>)
    ensures
        lev(s, s) == 0,
    decreases s.len(),
{
    if s.len() > 0 {
        lemma_lev_self(s.drop_last());
    }
}

/// Edit distance is bounded by the longer length, and the edit similarity
/// lies between zero and one.
pub proof fn lemma_levsim_bounds(s: Seq<char>, t: Seq<char>)
    ensures
        lev(s, t) <= max_len(s, t),
        levsim(s, t) <= SIMILARITY_SCALE,
{
    lemma_lev_at_most_max_len(s, t);
    let m = max_len(s, t);
    if m > 0 {
        let d = lev(s, t);
        assert(((m - d) as nat) * (SIMILARITY_SCALE as nat) <= m * (SIMILARITY_SCALE as nat)) by (nonlinear_arith)
            requires d <= m;
        assert(((m - d) as nat) * (SIMILARITY_SCALE as nat) / m <= SIMILARITY_SCALE as nat) by (nonlinear_arith)
            requires ((m - d) as nat) * (SIMILARITY_SCALE as nat) <= m * (SIMILARITY_SCALE as nat), m > 0;
    }
}

/// Similarity is symmetric, and a record with a discount value is fully
/// similar to itself.
pub proof fn lemma_similarity_symmetric(a: RawCoupon, b: RawCoupon)
    ensures
        similarity(a, b) == similarity(b, a),
        a.discount_value is Some ==> similarity(a, a) == SIMILARITY_SCALE,
{
    lemma_lev_symmetric(a.code@, b.code@);
    lemma_lev_symmetric(a.title@, b.title@);
    assert(max_len(a.code@, b.code@) == max_len(b.code@, a.code@));
    assert(max_len(a.title@, b.title@) == max_len(b.title@, a.title@));
    lemma_lev_self(a.code@);
    lemma_lev_self(a.title@);
    let mc = max_len(a.code@, a.code@);
    let mt = max_len(a.title@, a.title@);
    if mc > 0 {
        assert(mc * (SIMILARITY_SCALE as nat) / mc == SIMILARITY_SCALE) by (nonlinear_arith)
            requires mc > 0;
    }
    if mt > 0 {
        assert(mt * (SIMILARITY_SCALE as nat) / mt == SIMILARITY_SCALE) by (nonlinear_arith)
            requires mt > 0;
    }
}

/// Same code and same merchant domain.
pub open spec fn same_listing(a: RawCoupon, b: RawCoupon) -> bool {
    a.code@ == b.code@ && a.merchant_domain@ == b.merchant_domain@
}

pub open spec fn listed_in(kept: Seq<RawCoupon>, c: RawCoupon) -> bool {
    exists|i: int| 0 <= i < kept.len() && #[trigger] same_listing(kept[i], c)
}

/// First record wins per (code, merchant domain), in input order.
pub open spec fn dedup_by_listing(s: Seq<RawCoupon>) -> Seq<RawCoupon>
    decreases s.len(),
{
    if s.len() == 0 {
        Seq::empty()
    } else {
        let kept = dedup_by_listing(s.drop_last());
        if listed_in(kept, s.last()) {
            kept
        } else {
            kept.push(s.last())
        }
    }
}

/// Whether the fuzzy pass compares `a` with `b`: always, or only within one
/// merchant domain.
pub open spec fn compared(per_merchant: bool, a: RawCoupon, b: RawCoupon) -> bool {
    !per_merchant || a.merchant_domain@ == b.merchant_domain@
}

pub open spec fn too_similar(a: RawCoupon, b: RawCoupon, threshold: nat, per_merchant: bool) -> bool {
    compared(per_merchant, a, b) && similarity(a, b) > threshold
}

pub open spec fn near_duplicate(kept: Seq<RawCoupon>, c: RawCoupon, threshold: nat, per_merchant: bool) -> bool {
    exists|i: int| 0 <= i < kept.len() && #[trigger] too_similar(kept[i], c, threshold, per_merchant)
}

/// A record is dropped when it is too similar to a record kept before it.
pub open spec fn dedup_fuzzy(s: Seq<RawCoupon>, threshold: nat, per_merchant: bool) -> Seq<RawCoupon>
    decreases s.len(),
{
    if s.len() == 0 {
        Seq::empty()
    } else {
        let kept = dedup_fuzzy(s.drop_last(), threshold, per_merchant);
        if near_duplicate(kept, s.last(), threshold, per_merchant) {
            kept
        } else {
            kept.push(s.last())
        }
    }
}

pub open spec fn digit_char(d: nat) -> char {
    seq!['0', '1', '2', '3', '4', '5', '6', '7', '8', '9'][d as int]
}

/// Decimal digits of `n`, most significant first.
pub open spec fn decimal_digits(n: nat) -> Seq<char>
    decreases n,
{
    if n < 10 {
        seq![digit_char(n)]
    } else {
        decimal_digits(n / 10).push(digit_char(n % 10))
    }
}

/// An amount in hundredths written as a number: `1000` is `10`, `1550` is
/// `15.5`, `4999` is `49.99`.
pub open spec fn hundredths_text(v: nat) -> Seq<char> {
    let whole = decimal_digits(v / 100);
    let f = v % 100;
    if f == 0 {
        whole
    } else if f % 10 == 0 {
        whole + seq!['.', digit_char(f / 10)]
    } else {
        whole + seq!['.', digit_char(f / 10), digit_char(f % 10)]
    }
}

/// The text that is digested: code, merchant domain, discount tag and,
/// when present, the discount value.
pub open spec fn hash_key(c: RawCoupon) -> Seq<char> {
    c.code@ + c.merchant_domain@ + discount_tag(c.discount_type) + match c.discount_value {
        Some(v) => hundredths_text(v as nat),
        None => Seq::empty(),
    }
}

/// Lower-case hex SHA-256 digest of the UTF-8 encoding of `text`.
pub uninterp spec fn sha256_hex(text: Seq<char>) -> Seq<char>;

pub open spec fn coupon_hash(c: RawCoupon) -> Seq<char> {
    sha256_hex(hash_key(c))
}

pub open spec fn hashed_in(kept: Seq<RawCoupon>, c: RawCoupon) -> bool {
    exists|i: int| 0 <= i < kept.len() && #[trigger] coupon_hash(kept[i]) == coupon_hash(c)
}

/// First record wins per digest.
pub open spec fn dedup_by_hash(s: Seq<RawCoupon>) -> Seq<RawCoupon>
    decreases s.len(),
{
    if s.len() == 0 {
        Seq::empty()
    } else {
        let kept = dedup_by_hash(s.drop_last());
        if hashed_in(kept, s.last()) {
            kept
        } else {
            kept.push(s.last())
        }
    }
}

/// Listing keys, then fuzzy (0.85) within each merchant, then digests.
pub open spec fn dedup_combined(s: Seq<RawCoupon>) -> Seq<RawCoupon> {
    dedup_by_hash(dedup_fuzzy(dedup_by_listing(s), COMBINED_FUZZY_THRESHOLD as nat, true))
}

/// The output of a strategy on `s`.
pub open spec fn deduplicated(strategy: DeduplicationStrategy, s: Seq<RawCoupon>) -> Seq<RawCoupon> {
    match strategy {
        DeduplicationStrategy::CodeAndMerchant => dedup_by_listing(s),
        DeduplicationStrategy::Fuzzy { threshold } => dedup_fuzzy(s, threshold as nat, false),
        DeduplicationStrategy::HashBased => dedup_by_hash(s),
        DeduplicationStrategy::Combined => dedup_combined(s),
    }
}

/// No two records share a listing key.
pub open spec fn listings_unique(s: Seq<RawCoupon>) -> bool {
    forall|i: int, j: int| 0 <= i < j < s.len() ==> !#[trigger] same_listing(s[i], s[j])
}

/// No record is too similar to one before it.
pub open spec fn fuzzy_clean(s: Seq<RawCoupon>, threshold: nat, per_merchant: bool) -> bool {
    forall|i: int, j: int| 0 <= i < j < s.len() ==> !#[trigger] too_similar(s[i], s[j], threshold, per_merchant)
}

/// No two records share a digest.
pub open spec fn hashes_unique(s: Seq<RawCoupon>) -> bool {
    forall|i: int, j: int| 0 <= i < j < s.len() ==> #[trigger] coupon_hash(s[i]) != #[trigger] coupon_hash(s[j])
}

/// Under the listing strategy, each (code, merchant domain) occurs at most
/// once in the output.
pub proof fn lemma_listing_output_unique(s: Seq<RawCoupon>)
    ensures
        listings_unique(dedup_by_listing(s)),
    decreases s.len(),
{
    if s.len() > 0 {
        lemma_listing_output_unique(s.drop_last());
    }
}

proof fn lemma_listing_fixpoint(s: Seq<RawCoupon>)
    requires
        listings_unique(s),
    ensures
        dedup_by_listing(s) == s,
    decreases s.len(),
{
    if s.len() > 0 {
        let p = s.drop_last();
        assert(listings_unique(p));
        lemma_listing_fixpoint(p);
        assert(!listed_in(p, s.last())) by {
            if listed_in(p, s.last()) {
                let i = choose|i: int| 0 <= i < p.len() && #[trigger] same_listing(p[i], s.last());
                assert(same_listing(s[i], s[s.len() - 1]));
            }
        }
        assert(p.push(s.last()) =~= s);
    }
}

proof fn lemma_fuzzy_output_clean(s: Seq<RawCoupon>, threshold: nat, per_merchant: bool)
    ensures
        fuzzy_clean(dedup_fuzzy(s, threshold, per_merchant), threshold, per_merchant),
    decreases s.len(),
{
    if s.len() > 0 {
        lemma_fuzzy_output_clean(s.drop_last(), threshold, per_merchant);
    }
}

proof fn lemma_fuzzy_fixpoint(s: Seq<RawCoupon>, threshold: nat, per_merchant: bool)
    requires
        fuzzy_clean(s, threshold, per_merchant),
    ensures
        dedup_fuzzy(s, threshold, per_merchant) == s,
    decreases s.len(),
{
    if s.len() > 0 {
        let p = s.drop_last();
        assert(fuzzy_clean(p, threshold, per_merchant));
        lemma_fuzzy_fixpoint(p, threshold, per_merchant);
        assert(!near_duplicate(p, s.last(), threshold, per_merchant)) by {
            if near_duplicate(p, s.last(), threshold, per_merchant) {
                let i = choose|i: int| 0 <= i < p.len() && #[trigger] too_similar(p[i], s.last(), threshold, per_merchant);
                assert(too_similar(s[i], s[s.len() - 1], threshold, per_merchant));
            }
        }
        assert(p.push(s.last()) =~= s);
    }
}

proof fn lemma_fuzzy_output_from_input(s: Seq<RawCoupon>, threshold: nat, per_merchant: bool)
    ensures
        forall|i: int| 0 <= i < dedup_fuzzy(s, threshold, per_merchant).len() ==> s.contains(
            #[trigger] dedup_fuzzy(s, threshold, per_merchant)[i],
        ),
    decreases s.len(),
{
    if s.len() > 0 {
        let p = s.drop_last();
        lemma_fuzzy_output_from_input(p, threshold, per_merchant);
        let r = dedup_fuzzy(s, threshold, per_merchant);
        let k = dedup_fuzzy(p, threshold, per_merchant);
        assert forall|i: int| 0 <= i < r.len() implies s.contains(#[trigger] r[i]) by {
            if i < k.len() {
                assert(p.contains(k[i]));
                let a = choose|a: int| 0 <= a < p.len() && p[a] == k[i];
                assert(s[a] == r[i]);
            } else {
                assert(s[s.len() - 1] == r[i]);
            }
        }
    }
}

proof fn lemma_hash_output_unique(s: Seq<RawCoupon>)
    ensures
        hashes_unique(dedup_by_hash(s)),
    decreases s.len(),
{
    if s.len() > 0 {
        lemma_hash_output_unique(s.drop_last());
        let k = dedup_by_hash(s.drop_last());
        let r = dedup_by_hash(s);
        if !hashed_in(k, s.last()) {
            assert forall|i: int, j: int| 0 <= i < j < r.len() implies #[trigger] coupon_hash(r[i]) != #[trigger] coupon_hash(r[j]) by {
                if j == r.len() - 1 {
                    assert(r[i] == k[i]);
                    if coupon_hash(k[i]) == coupon_hash(s.last()) {
                        assert(hashed_in(k, s.last()));
                    }
                }
            }
        }
    }
}

proof fn lemma_hash_fixpoint(s: Seq<RawCoupon>)
    requires
        hashes_unique(s),
    ensures
        dedup_by_hash(s) == s,
    decreases s.len(),
{
    if s.len() > 0 {
        let p = s.drop_last();
        assert(hashes_unique(p));
        lemma_hash_fixpoint(p);
        assert(!hashed_in(p, s.last())) by {
            if hashed_in(p, s.last()) {
                let i = choose|i: int| 0 <= i < p.len() && #[trigger] coupon_hash(p[i]) == coupon_hash(s.last());
                assert(coupon_hash(s[i]) == coupon_hash(s[s.len() - 1]));
            }
        }
        assert(p.push(s.last()) =~= s);
    }
}

proof fn lemma_hash_output_from_input(s: Seq<RawCoupon>)
    ensures
        forall|i: int| 0 <= i < dedup_by_hash(s).len() ==> s.contains(#[trigger] dedup_by_hash(s)[i]),
    decreases s.len(),
{
    if s.len() > 0 {
        let p = s.drop_last();
        lemma_hash_output_from_input(p);
        let r = dedup_by_hash(s);
        let k = dedup_by_hash(p);
        assert forall|i: int| 0 <= i < r.len() implies s.contains(#[trigger] r[i]) by {
            if i < k.len() {
                assert(p.contains(k[i]));
                let a = choose|a: int| 0 <= a < p.len() && p[a] == k[i];
                assert(s[a] == r[i]);
            } else {
                assert(s[s.len() - 1] == r[i]);
            }
        }
    }
}

/// The fuzzy pass keeps listing keys unique.
proof fn lemma_fuzzy_keeps_listings_unique(s: Seq<RawCoupon>, threshold: nat, per_merchant: bool)
    requires
        listings_unique(s),
    ensures
        listings_unique(dedup_fuzzy(s, threshold, per_merchant)),
    decreases s.len(),
{
    if s.len() > 0 {
        let p = s.drop_last();
        assert(listings_unique(p));
        lemma_fuzzy_keeps_listings_unique(p, threshold, per_merchant);
        lemma_fuzzy_output_from_input(p, threshold, per_merchant);
        let k = dedup_fuzzy(p, threshold, per_merchant);
        let r = dedup_fuzzy(s, threshold, per_merchant);
        assert forall|i: int, j: int| 0 <= i < j < r.len() implies !#[trigger] same_listing(r[i], r[j]) by {
            if j == k.len() && r.len() > k.len() {
                assert(p.contains(k[i]));
                let a = choose|a: int| 0 <= a < p.len() && p[a] == k[i];
                assert(!same_listing(s[a], s[s.len() - 1]));
            } else {
                assert(r[i] == k[i] && r[j] == k[j]);
            }
        }
    }
}

/// The digest pass keeps listing keys unique.
proof fn lemma_hash_keeps_listings_unique(s: Seq<RawCoupon>)
    requires
        listings_unique(s),
    ensures
        listings_unique(dedup_by_hash(s)),
    decreases s.len(),
{
    if s.len() > 0 {
        let p = s.drop_last();
        assert(listings_unique(p));
        lemma_hash_keeps_listings_unique(p);
        lemma_hash_output_from_input(p);
        let k = dedup_by_hash(p);
        let r = dedup_by_hash(s);
        assert forall|i: int, j: int| 0 <= i < j < r.len() implies !#[trigger] same_listing(r[i], r[j]) by {
            if j == k.len() && r.len() > k.len() {
                assert(p.contains(k[i]));
                let a = choose|a: int| 0 <= a < p.len() && p[a] == k[i];
                assert(!same_listing(s[a], s[s.len() - 1]));
            } else {
                assert(r[i] == k[i] && r[j] == k[j]);
            }
        }
    }
}

/// The digest pass keeps a sequence free of near duplicates.
proof fn lemma_hash_keeps_fuzzy_clean(s: Seq<RawCoupon>, threshold: nat, per_merchant: bool)
    requires
        fuzzy_clean(s, threshold, per_merchant),
    ensures
        fuzzy_clean(dedup_by_hash(s), threshold, per_merchant),
    decreases s.len(),
{
    if s.len() > 0 {
        let p = s.drop_last();
        assert(fuzzy_clean(p, threshold, per_merchant));
        lemma_hash_keeps_fuzzy_clean(p, threshold, per_merchant);
        lemma_hash_output_from_input(p);
        let k = dedup_by_hash(p);
        let r = dedup_by_hash(s);
        assert forall|i: int, j: int| 0 <= i < j < r.len() implies !#[trigger] too_similar(r[i], r[j], threshold, per_merchant) by {
            if j == k.len() && r.len() > k.len() {
                assert(p.contains(k[i]));
                let a = choose|a: int| 0 <= a < p.len() && p[a] == k[i];
                assert(!too_similar(s[a], s[s.len() - 1], threshold, per_merchant));
            } else {
                assert(r[i] == k[i] && r[j] == k[j]);
            }
        }
    }
}

/// Deduplicating an already deduplicated sequence changes nothing, for every
/// strategy.
pub proof fn lemma_deduplicate_idempotent(strategy: DeduplicationStrategy, s: Seq<RawCoupon>)
    ensures
        deduplicated(strategy, deduplicated(strategy, s)) == deduplicated(strategy, s),
{
    match strategy {
        DeduplicationStrategy::CodeAndMerchant => {
            lemma_listing_output_unique(s);
            lemma_listing_fixpoint(dedup_by_listing(s));
        },
        DeduplicationStrategy::Fuzzy { threshold } => {
            lemma_fuzzy_output_clean(s, threshold as nat, false);
            lemma_fuzzy_fixpoint(dedup_fuzzy(s, threshold as nat, false), threshold as nat, false);
        },
        DeduplicationStrategy::HashBased => {
            lemma_hash_output_unique(s);
            lemma_hash_fixpoint(dedup_by_hash(s));
        },
        DeduplicationStrategy::Combined => {
            let t = COMBINED_FUZZY_THRESHOLD as nat;
            let l = dedup_by_listing(s);
            let f = dedup_fuzzy(l, t, true);
            let y = dedup_by_hash(f);
            lemma_listing_output_unique(s);
            lemma_fuzzy_keeps_listings_unique(l, t, true);
            lemma_hash_keeps_listings_unique(f);
            lemma_fuzzy_output_clean(l, t, true);
            lemma_hash_keeps_fuzzy_clean(f, t, true);
            lemma_hash_output_unique(f);
            lemma_listing_fixpoint(y);
            lemma_fuzzy_fixpoint(y, t, true);
            lemma_hash_fixpoint(y);
        },
    }
}

/// Relies on `sha2::Sha256`: the digest of the UTF-8 bytes of `text`,
/// written as lower-case hex by its `LowerHex` format.
#[verifier::external_body]
fn sha256_hex_of(text: &str) -> (r: String)
    ensures
        r@ == sha256_hex(text@),
{
    format!("{:x}", <sha2::Sha256 as sha2::Digest>::digest(text.as_bytes()))
}

fn digit_char_exec(d: u64) -> (r: char)
    requires
        d < 10,
    ensures
        r == digit_char(d as nat),
{
    let table = vec!['0', '1', '2', '3', '4', '5', '6', '7', '8', '9'];
    assert(table@ =~= seq!['0', '1', '2', '3', '4', '5', '6', '7', '8', '9']);
    table[d as usize]
}

/// Appends the decimal digits of `n`.
fn push_decimal_digits(n: u64, out: &mut Vec<char>)
    ensures
        final(out)@ == old(out)@ + decimal_digits(n as nat),
    decreases n,
{
    if n >= 10 {
        push_decimal_digits(n / 10, out);
    }
    out.push(digit_char_exec(n % 10));
    proof {
        if n >= 10 {
            assert(decimal_digits(n as nat) == decimal_digits((n / 10) as nat).push(digit_char((n % 10) as nat)));
        } else {
            assert(decimal_digits(n as nat) == seq![digit_char(n as nat)]);
        }
    }
}

/// Appends an amount in hundredths written as a number.
fn push_hundredths(v: u64, out: &mut Vec<char>)
    ensures
        final(out)@ == old(out)@ + hundredths_text(v as nat),
{
    let ghost start = out@;
    push_decimal_digits(v / 100, out);
    let f = v % 100;
    if f != 0 {
        out.push('.');
        out.push(digit_char_exec(f / 10));
        if f % 10 != 0 {
            out.push(digit_char_exec(f % 10));
        }
    }
    assert(out@ =~= start + hundredths_text(v as nat));
}

/// Appends all characters of `s`.
fn push_str_chars(s: &str, out: &mut Vec<char>)
    ensures
        final(out)@ == old(out)@ + s@,
{
    let mut c = chars_of(s);
    out.append(&mut c);
}

/// Whether `c` is too similar to one of `kept`.
fn has_near_duplicate(dd: &Deduplicator, kept: &Vec<RawCoupon>, c: &RawCoupon, threshold: u64, per_merchant: bool) -> (r: bool)
    ensures
        r == near_duplicate(kept@, *c, threshold as nat, per_merchant),
{
    let mut i: usize = 0;
    while i < kept.len()
        invariant
            i <= kept.len(),
            forall|k: int| 0 <= k < i ==> !#[trigger] too_similar(kept@[k], *c, threshold as nat, per_merchant),
        decreases kept.len() - i,
    {
        let related = !per_merchant || kept[i].merchant_domain == c.merchant_domain;
        if related && dd.similarity_score(&kept[i], c) > threshold {
            assert(too_similar(kept@[i as int], *c, threshold as nat, per_merchant));
            return true;
        }
        i += 1;
    }
    false
}

/// Strategy for collapsing duplicate records.
#[derive(Clone, Copy, Debug, PartialEq, Eq, Structural)]
pub enum DeduplicationStrategy {
    /// First record wins per (code, merchant domain).
    CodeAndMerchant,
    /// A record is dropped when its similarity (in millionths) to an
    /// already kept record exceeds `threshold`.
    Fuzzy { threshold: u64 },
    /// First record wins per digest of the key fields.
    HashBased,
    /// Listing keys, then fuzzy within each merchant, then digests.
    Combined,
}

pub struct Deduplicator {
    pub strategy: DeduplicationStrategy,
}

impl Deduplicator {
    pub fn new() -> (r: Self)
        ensures
            r.strategy == DeduplicationStrategy::Combined,
    {
        Deduplicator { strategy: DeduplicationStrategy::Combined }
    }

    pub fn with_strategy(strategy: DeduplicationStrategy) -> (r: Self)
        ensures
            r.strategy == strategy,
    {
        Deduplicator { strategy }
    }

    /// Edit distance between the characters of `s1` and `s2`.
    pub fn levenshtein_distance(&self, s1: &str, s2: &str) -> (r: usize)
        ensures
            r == lev(s1@, s2@),
    {
        let a = chars_of(s1);
        let b = chars_of(s2);
        let n = a.len();
        let m = b.len();
        let ghost sa = a@;
        let ghost sb = b@;
        let mut prev: Vec<usize> = Vec::new();
        let mut j: usize = 0;
        while j < m
            invariant
                j <= m,
                m == sb.len(),
                prev@.len() == j,
                forall|k: int| 0 <= k < j ==> prev@[k] == k,
            decreases m - j,
        {
            prev.push(j);
            j += 1;
        }
        prev.push(m);
        proof {
            assert forall|k: int| 0 <= k <= m implies prev@[k] == lev(sa.take(0), sb.take(k)) by {
                assert(sa.take(0).len() == 0);
                assert(sb.take(k).len() == k);
            }
        }
        let mut i: usize = 0;
        while i < n
            invariant
                i <= n,
                n == sa.len(),
                m == sb.len(),
                a@ == sa,
                b@ == sb,
                prev@.len() == m + 1,
                forall|k: int| 0 <= k <= m ==> prev@[k] == lev(sa.take(i as int), sb.take(k)),
            decreases n - i,
        {
            let mut cur: Vec<usize> = Vec::new();
            proof {
                assert(sb.take(0).len() == 0);
                lemma_lev_at_most_max_len(sa.take(i + 1), sb.take(0));
            }
            cur.push(i + 1);
            let mut j: usize = 0;
            while j < m
                invariant
                    i < n,
                    j <= m,
                    n == sa.len(),
                    m == sb.len(),
                    a@ == sa,
                    b@ == sb,
                    prev@.len() == m + 1,
                    forall|k: int| 0 <= k <= m ==> prev@[k] == lev(sa.take(i as int), sb.take(k)),
                    cur@.len() == j + 1,
                    forall|k: int| 0 <= k <= j ==> cur@[k] == lev(sa.take(i + 1), sb.take(k)),
                decreases m - j,
            {
                let ghost s_i = sa.take(i as int);
                let ghost s_i1 = sa.take(i + 1);
                let ghost t_j = sb.take(j as int);
                let ghost t_j1 = sb.take(j + 1);
                proof {
                    assert(s_i1.drop_last() =~= s_i);
                    assert(t_j1.drop_last() =~= t_j);
                    assert(s_i1.last() == sa[i as int]);
                    assert(t_j1.last() == sb[j as int]);
                    lemma_lev_at_most_max_len(s_i, t_j);
                    lemma_lev_at_most_max_len(s_i, t_j1);
                    lemma_lev_at_most_max_len(s_i1, t_j);
                    lemma_lev_at_most_max_len(s_i1, t_j1);
                }
                let cost: usize = if a[i] == b[j] { 0 } else { 1 };
                let diag = prev[j] + cost;
                let up = if prev[j + 1] < usize::MAX { prev[j + 1] + 1 } else { usize::MAX };
                let left = if cur[j] < usize::MAX { cur[j] + 1 } else { usize::MAX };
                let best = if diag <= up && diag <= left {
                    diag
                } else if up <= left {
                    up
                } else {
                    left
                };
                cur.push(best);
                j += 1;
            }
            prev = cur;
            i += 1;
        }
        proof {
            assert(sa.take(n as int) =~= sa);
            assert(sb.take(m as int) =~= sb);
        }
        prev[m]
    }

    /// Edit similarity of two strings, in millionths.
    pub fn levenshtein_similarity(&self, s1: &str, s2: &str) -> (r: u64)
        ensures
            r == levsim(s1@, s2@),
            r <= SIMILARITY_SCALE,
    {
        let n1 = s1.unicode_len();
        let n2 = s2.unicode_len();
        let m = if n1 >= n2 { n1 } else { n2 };
        proof {
            lemma_levsim_bounds(s1@, s2@);
        }
        if m == 0 {
            return SIMILARITY_SCALE;
        }
        let d = self.levenshtein_distance(s1, s2);
        let num: u128 = ((m - d) as u128) * (SIMILARITY_SCALE as u128);
        let q: u128 = num / (m as u128);
        q as u64
    }

    /// Weighted similarity of two records, in millionths.
    pub fn similarity_score(&self, coupon1: &RawCoupon, coupon2: &RawCoupon) -> (r: u64)
        ensures
            r == similarity(*coupon1, *coupon2),
            r <= SIMILARITY_SCALE,
    {
        let code_sim = self.levenshtein_similarity(coupon1.code.as_str(), coupon2.code.as_str());
        let title_sim = self.levenshtein_similarity(coupon1.title.as_str(), coupon2.title.as_str());
        let mut score: u64 = (4 * code_sim + 3 * title_sim) / 10;
        if coupon1.discount_type == coupon2.discount_type {
            score = score + 200_000;
            match (coupon1.discount_value, coupon2.discount_value) {
                (Some(v1), Some(v2)) => {
                    if v1 == v2 {
                        score = score + 100_000;
                    }
                },
                _ => {},
            }
        }
        score
    }
    fn deduplicate_by_code_and_merchant(&self, coupons: Vec<RawCoupon>) -> (r: Vec<RawCoupon>)
        ensures
            r@ == dedup_by_listing(coupons@),
    {
        let ghost s = coupons@;
        let mut rest = coupons;
        let mut out: Vec<RawCoupon> = Vec::new();
        while rest.len() > 0
            invariant
                rest.len() <= s.len(),
                rest@ == s.subrange(s.len() - rest.len(), s.len() as int),
                out@ == dedup_by_listing(s.subrange(0, s.len() - rest.len())),
            decreases rest.len(),
        {
            let ghost done = s.subrange(0, s.len() - rest.len());
            let c = rest.remove(0);
            let ghost now = s.subrange(0, s.len() - rest.len());
            assert(now.drop_last() =~= done);
            assert(now.last() == c);
            let mut seen = false;
            let mut i: usize = 0;
            while i < out.len()
                invariant
                    i <= out.len(),
                    seen == exists|k: int| 0 <= k < i && #[trigger] same_listing(out@[k], c),
                decreases out.len() - i,
            {
                if out[i].code == c.code && out[i].merchant_domain == c.merchant_domain {
                    assert(same_listing(out@[i as int], c));
                    seen = true;
                }
                i += 1;
            }
            if !seen {
                out.push(c);
            }
            assert(rest@ =~= s.subrange(s.len() - rest.len(), s.len() as int));
        }
        assert(s.subrange(0, s.len() as int) =~= s);
        out
    }

    /// Digest of the key fields of a record.
    pub fn compute_coupon_hash(&self, coupon: &RawCoupon) -> (r: String)
        ensures
            r@ == coupon_hash(*coupon),
    {
        let mut text: Vec<char> = Vec::new();
        push_str_chars(coupon.code.as_str(), &mut text);
        push_str_chars(coupon.merchant_domain.as_str(), &mut text);
        let mut tag = coupon.discount_type.tag_chars();
        text.append(&mut tag);
        match coupon.discount_value {
            Some(v) => push_hundredths(v, &mut text),
            None => {},
        }
        assert(text@ =~= hash_key(*coupon));
        let t = string_from_chars(&text);
        sha256_hex_of(t.as_str())
    }

    fn deduplicate_by_hash(&self, coupons: Vec<RawCoupon>) -> (r: Vec<RawCoupon>)
        ensures
            r@ == dedup_by_hash(coupons@),
    {
        let ghost s = coupons@;
        let mut rest = coupons;
        let mut out: Vec<RawCoupon> = Vec::new();
        let mut hashes: Vec<String> = Vec::new();
        while rest.len() > 0
            invariant
                rest.len() <= s.len(),
                rest@ == s.subrange(s.len() - rest.len(), s.len() as int),
                out@ == dedup_by_hash(s.subrange(0, s.len() - rest.len())),
                hashes@.len() == out@.len(),
                forall|k: int| 0 <= k < out@.len() ==> #[trigger] hashes@[k]@ == coupon_hash(out@[k]),
            decreases rest.len(),
        {
            let ghost done = s.subrange(0, s.len() - rest.len());
            let c = rest.remove(0);
            let ghost now = s.subrange(0, s.len() - rest.len());
            assert(now.drop_last() =~= done);
            assert(now.last() == c);
            let h = self.compute_coupon_hash(&c);
            let mut seen = false;
            let mut i: usize = 0;
            while i < hashes.len()
                invariant
                    i <= hashes.len(),
                    hashes@.len() == out@.len(),
                    forall|k: int| 0 <= k < out@.len() ==> #[trigger] hashes@[k]@ == coupon_hash(out@[k]),
                    h@ == coupon_hash(c),
                    seen == exists|k: int| 0 <= k < i && #[trigger] coupon_hash(out@[k]) == coupon_hash(c),
                decreases hashes.len() - i,
            {
                assert(hashes@[i as int]@ == coupon_hash(out@[i as int]));
                if hashes[i] == h {
                    seen = true;
                }
                i += 1;
            }
            if !seen {
                out.push(c);
                hashes.push(h);
            }
            assert(rest@ =~= s.subrange(s.len() - rest.len(), s.len() as int));
        }
        assert(s.subrange(0, s.len() as int) =~= s);
        out
    }

    fn deduplicate_fuzzy_by(&self, coupons: Vec<RawCoupon>, threshold: u64, per_merchant: bool) -> (r: Vec<RawCoupon>)
        ensures
            r@ == dedup_fuzzy(coupons@, threshold as nat, per_merchant),
    {
        let ghost s = coupons@;
        let mut rest = coupons;
        let mut out: Vec<RawCoupon> = Vec::new();
        while rest.len() > 0
            invariant
                rest.len() <= s.len(),
                rest@ == s.subrange(s.len() - rest.len(), s.len() as int),
                out@ == dedup_fuzzy(s.subrange(0, s.len() - rest.len()), threshold as nat, per_merchant),
            decreases rest.len(),
        {
            let ghost done = s.subrange(0, s.len() - rest.len());
            let c = rest.remove(0);
            let ghost now = s.subrange(0, s.len() - rest.len());
            assert(now.drop_last() =~= done);
            assert(now.last() == c);
            if !has_near_duplicate(self, &out, &c, threshold, per_merchant) {
                out.push(c);
            }
            assert(rest@ =~= s.subrange(s.len() - rest.len(), s.len() as int));
        }
        assert(s.subrange(0, s.len() as int) =~= s);
        out
    }

    /// Drops every record whose similarity to an earlier kept record exceeds
    /// `threshold` (millionths).
    fn deduplicate_fuzzy(&self, coupons: Vec<RawCoupon>, threshold: u64) -> (r: Vec<RawCoupon>)
        ensures
            r@ == dedup_fuzzy(coupons@, threshold as nat, false),
    {
        self.deduplicate_fuzzy_by(coupons, threshold, false)
    }

    fn deduplicate_combined(&self, coupons: Vec<RawCoupon>) -> (r: Vec<RawCoupon>)
        ensures
            r@ == dedup_combined(coupons@),
    {
        let listed = self.deduplicate_by_code_and_merchant(coupons);
        let fuzzy = self.deduplicate_fuzzy_by(listed, COMBINED_FUZZY_THRESHOLD, true);
        self.deduplicate_by_hash(fuzzy)
    }

    /// The records that the strategy keeps, in input order.
    pub fn deduplicate(&self, coupons: Vec<RawCoupon>) -> (r: Vec<RawCoupon>)
        ensures
            r@ == deduplicated(self.strategy, coupons@),
    {
        match self.strategy {
            DeduplicationStrategy::CodeAndMerchant => self.deduplicate_by_code_and_merchant(coupons),
            DeduplicationStrategy::Fuzzy { threshold } => self.deduplicate_fuzzy(coupons, threshold),
            DeduplicationStrategy::HashBased => self.deduplicate_by_hash(coupons),
            DeduplicationStrategy::Combined => self.deduplicate_combined(coupons),
        }
    }
}

/// How many records of `s` belong to merchant domain `d`.
pub open spec fn domain_count(s: Seq<RawCoupon>, d: Seq<char>) -> nat
    decreases s.len(),
{
    if s.len() == 0 {
        0
    } else {
        domain_count(s.drop_last(), d) + if s.last().merchant_domain@ == d {
            1nat
        } else {
            0nat
        }
    }
}

proof fn lemma_domain_count_bounds(s: Seq<RawCoupon>, d: Seq<char>)
    ensures
        domain_count(s, d) <= s.len(),
        domain_count(s, d) > 0 ==> exists|i: int| 0 <= i < s.len() && #[trigger] s[i].merchant_domain@ == d,
    decreases s.len(),
{
    if s.len() > 0 {
        lemma_domain_count_bounds(s.drop_last(), d);
        if domain_count(s.drop_last(), d) > 0 {
            let i = choose|i: int| 0 <= i < s.drop_last().len() && #[trigger] s.drop_last()[i].merchant_domain@ == d;
            assert(s[i].merchant_domain@ == d);
        }
        if s.last().merchant_domain@ == d {
            assert(s[s.len() - 1].merchant_domain@ == d);
        }
    }
}

/// A histogram of merchant domains: distinct keys, each a domain of `s`
/// with its count in `s`, and every domain of `s` present.
pub open spec fn is_histogram(h: Seq<(String, usize)>, s: Seq<RawCoupon>) -> bool {
    &&& keys_unique(h)
    &&& forall|i: int| 0 <= i < h.len() ==> (#[trigger] h[i]).1 == domain_count(s, h[i].0@)
    &&& forall|i: int| 0 <= i < h.len() ==> (#[trigger] h[i]).1 > 0
    &&& forall|j: int| 0 <= j < s.len() ==> #[trigger] entry_index(h, s[j].merchant_domain@) is Some
}

/// Counts the records of each merchant domain, in order of first appearance.
fn merchant_histogram(s: &Vec<RawCoupon>) -> (r: Vec<(String, usize)>)
    ensures
        is_histogram(r@, s@),
{
    let mut h: Vec<(String, usize)> = Vec::new();
    let mut j: usize = 0;
    while j < s.len()
        invariant
            j <= s@.len(),
            is_histogram(h@, s@.take(j as int)),
        decreases s@.len() - j,
    {
        let ghost t = s@.take(j as int);
        let ghost t1 = s@.take(j + 1);
        let ghost d = s@[j as int].merchant_domain@;
        assert(t1.drop_last() =~= t);
        assert(t1.last() == s@[j as int]);
        let ghost old_h = h@;
        proof {
            lemma_domain_count_bounds(t, d);
        }
        match find_entry(&h, s[j].merchant_domain.as_str()) {
            Some(i) => {
                let (key, n) = h.remove(i);
                assert(n == domain_count(t, d));
                h.insert(i, (key, n + 1));
                proof {
                    assert(h@ == old_h.update(i as int, (old_h[i as int].0, (n + 1) as usize)));
                    assert(keys_unique(h@)) by {
                        assert forall|x: int, y: int| 0 <= x < y < h@.len() implies #[trigger] h@[x].0@ != #[trigger] h@[y].0@ by {
                            assert(h@[x].0@ == old_h[x].0@ && h@[y].0@ == old_h[y].0@);
                        }
                    }
                    assert forall|k: int| 0 <= k < h@.len() implies (#[trigger] h@[k]).1 == domain_count(t1, h@[k].0@) by {
                        if k != i {
                            assert(h@[k] == old_h[k]);
                            if old_h[k].0@ == d {
                                assert(old_h[i as int].0@ == d);
                            }
                        }
                    }
                    assert forall|m: int| 0 <= m < t1.len() implies #[trigger] entry_index(h@, t1[m].merchant_domain@) is Some by {
                        let dm = t1[m].merchant_domain@;
                        if m < t.len() {
                            assert(t1[m] == t[m]);
                            let k = entry_index(old_h, dm)->0;
                            assert(old_h[k].0@ == dm);
                            assert(h@[k].0@ == dm);
                            lemma_entry_index_at(h@, dm, k);
                        } else {
                            lemma_entry_index_at(h@, d, i as int);
                        }
                    }
                }
            },
            None => {
                let key = s[j].merchant_domain.clone();
                h.push((key, 1));
                proof {
                    assert(domain_count(t, d) == 0) by {
                        if domain_count(t, d) > 0 {
                            let m = choose|m: int| 0 <= m < t.len() && #[trigger] t[m].merchant_domain@ == d;
                            assert(entry_index(old_h, t[m].merchant_domain@) is Some);
                        }
                    }
                    let n = old_h.len() as int;
                    assert(keys_unique(h@)) by {
                        assert forall|x: int, y: int| 0 <= x < y < h@.len() implies #[trigger] h@[x].0@ != #[trigger] h@[y].0@ by {
                            if y == n {
                                assert(h@[x] == old_h[x]);
                                if old_h[x].0@ == d {
                                    assert(exists|k: int| 0 <= k < old_h.len() && #[trigger] old_h[k].0@ == d);
                                }
                            } else {
                                assert(h@[x] == old_h[x] && h@[y] == old_h[y]);
                            }
                        }
                    }
                    assert forall|k: int| 0 <= k < h@.len() implies (#[trigger] h@[k]).1 == domain_count(t1, h@[k].0@) by {
                        if k < n {
                            assert(h@[k] == old_h[k]);
                            if old_h[k].0@ == d {
                                assert(exists|q: int| 0 <= q < old_h.len() && #[trigger] old_h[q].0@ == d);
                            }
                        }
                    }
                    assert forall|m: int| 0 <= m < t1.len() implies #[trigger] entry_index(h@, t1[m].merchant_domain@) is Some by {
                        let dm = t1[m].merchant_domain@;
                        if m < t.len() {
                            assert(t1[m] == t[m]);
                            let k = entry_index(old_h, dm)->0;
                            assert(old_h[k].0@ == dm);
                            assert(h@[k] == old_h[k]);
                            lemma_entry_index_at(h@, dm, k);
                        } else {
                            lemma_entry_index_at(h@, d, n);
                        }
                    }
                }
            },
        }
        j += 1;
    }
    assert(s@.take(s@.len() as int) =~= s@);
    h
}

/// Counts before and after deduplication; `deduplication_rate` is in
/// hundredths of a percent (zero for an empty input).
#[derive(Debug)]
pub struct DeduplicationStats {
    pub original_count: usize,
    pub deduplicated_count: usize,
    pub removed_count: usize,
    pub deduplication_rate: u64,
    pub merchant_stats: Vec<(String, usize)>,
    pub deduplicated_merchant_stats: Vec<(String, usize)>,
}

impl Deduplicator {
    /// Counts, removal rate and per-merchant histograms of a deduplication.
    pub fn get_deduplication_stats(&self, original: &Vec<RawCoupon>, deduplicated: &Vec<RawCoupon>) -> (r: DeduplicationStats)
        requires
            deduplicated@.len() <= original@.len(),
        ensures
            r.original_count == original@.len(),
            r.deduplicated_count == deduplicated@.len(),
            r.removed_count == original@.len() - deduplicated@.len(),
            r.deduplication_rate == if original@.len() == 0 {
                0
            } else {
                (r.removed_count as nat) * 10_000 / (original@.len() as nat)
            },
            is_histogram(r.merchant_stats@, original@),
            is_histogram(r.deduplicated_merchant_stats@, deduplicated@),
    {
        let original_count = original.len();
        let deduplicated_count = deduplicated.len();
        let removed_count = original_count - deduplicated_count;
        let deduplication_rate: u64 = if original_count == 0 {
            0
        } else {
            assert((removed_count as int) * 10_000 / (original_count as int) <= 10_000) by (nonlinear_arith)
                requires removed_count <= original_count, original_count > 0;
            ((removed_count as u128) * 10_000 / (original_count as u128)) as u64
        };
        DeduplicationStats {
            original_count,
            deduplicated_count,
            removed_count,
            deduplication_rate,
            merchant_stats: merchant_histogram(original),
            deduplicated_merchant_stats: merchant_histogram(deduplicated),
        }
    }
}

} // verus!
