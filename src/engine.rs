//! The per-URL pipeline (parse, then the quality gate) and the batch's
//! final deduplication. Fetching, admission waits and concurrency are the
//! caller's.
use vstd::prelude::*;
use crate::coupon::{RawCoupon, EngineConfig, CouponView, views, lemma_views_push};
use crate::fetcher::{ContentType, classify, trim_start_of};
use crate::parser::{url_host, html_coupons, json_coupons, json_doc, csv_rows, csv_coupons, text_coupons};
use crate::dedup::{Deduplicator, DeduplicationStrategy, deduplicated};
use crate::parser::{Parser, ParseError};
use crate::validator::{Validator, coupon_ok, view_ok};

verus! {

/// The records of `s` that pass the quality gate at `now`, in order.
pub open spec fn valid_only(v: Validator, s: Seq<RawCoupon>, now: i64) -> Seq<RawCoupon>
    decreases s.len(),
{
    if s.len() == 0 {
        Seq::empty()
    } else {
        let p = valid_only(v, s.drop_last(), now);
        if coupon_ok(v, s.last(), now) {
            p.push(s.last())
        } else {
            p
        }
    }
}

/// The records of `s` that pass the quality gate at `now`, in order.
pub open spec fn valid_views(v: Validator, s: Seq<CouponView>, now: i64) -> Seq<CouponView>
    decreases s.len(),
{
    if s.len() == 0 {
        Seq::empty()
    } else {
        let p = valid_views(v, s.drop_last(), now);
        if view_ok(v, s.last(), now) {
            p.push(s.last())
        } else {
            p
        }
    }
}

proof fn lemma_valid_only_views(v: Validator, s: Seq<RawCoupon>, now: i64)
    ensures
        views(valid_only(v, s, now)) == valid_views(v, views(s), now),
    decreases s.len(),
{
    if s.len() == 0 {
        assert(views(s) =~= Seq::<CouponView>::empty());
        assert(views(valid_only(v, s, now)) =~= Seq::<CouponView>::empty());
    } else {
        lemma_valid_only_views(v, s.drop_last(), now);
        assert(views(s).drop_last() =~= views(s.drop_last()));
        assert(views(s).last() == s.last()@);
        assert(coupon_ok(v, s.last(), now) == view_ok(v, s.last()@, now));
        if coupon_ok(v, s.last(), now) {
            lemma_views_push(valid_only(v, s.drop_last(), now), s.last());
        }
    }
}

pub struct CouponEngine {
    pub config: EngineConfig,
    pub parser: Parser,
    pub validator: Validator,
    pub deduplicator: Deduplicator,
}

impl CouponEngine {
    pub fn new(config: EngineConfig) -> (r: Self)
        ensures
            r.config == config,
            r.deduplicator.strategy == DeduplicationStrategy::Combined,
            r.validator == Validator::new_spec(),
    {
        CouponEngine { config, parser: Parser::new(), validator: Validator::new(), deduplicator: Deduplicator::new() }
    }

    /// The host of `url`, which keys admission control.
    pub fn extract_domain(url: &str) -> (r: Result<String, ParseError>)
        ensures
            match Parser::extract_domain_spec(url@) {
                Err(e) => r == Err::<String, ParseError>(e),
                Ok(h) => r is Ok && r->Ok_0@ == h,
            },
    {
        Parser::extract_domain(url)
    }

    /// Keeps the records that pass the quality gate at `now`, in order.
    pub fn keep_valid(&self, coupons: Vec<RawCoupon>, now: i64) -> (r: Vec<RawCoupon>)
        ensures
            r@ == valid_only(self.validator, coupons@, now),
    {
        let ghost s = coupons@;
        let mut rest = coupons;
        let mut out: Vec<RawCoupon> = Vec::new();
        while rest.len() > 0
            invariant
                rest.len() <= s.len(),
                rest@ == s.subrange(s.len() - rest.len(), s.len() as int),
                out@ == valid_only(self.validator, s.subrange(0, s.len() - rest.len()), now),
            decreases rest.len(),
        {
            let ghost done = s.subrange(0, s.len() - rest.len());
            let c = rest.remove(0);
            let ghost now_done = s.subrange(0, s.len() - rest.len());
            assert(now_done.drop_last() =~= done);
            assert(now_done.last() == c);
            if self.validator.is_valid(&c, now) {
                out.push(c);
            }
            assert(rest@ =~= s.subrange(s.len() - rest.len(), s.len() as int));
        }
        assert(s.subrange(0, s.len() as int) =~= s);
        out
    }

    /// The valid records of one fetched page, in extraction order; a page
    /// that does not parse contributes none.
    pub fn process_content(&self, content: &str, source_url: &str, now: i64) -> (r: Vec<RawCoupon>)
        ensures
            forall|i: int| 0 <= i < r@.len() ==> coupon_ok(self.validator, #[trigger] r@[i], now),
            match url_host(source_url@) {
                None => r@.len() == 0,
                Some(d) => match classify(trim_start_of(content@)) {
                    ContentType::Html => views(r@) == valid_views(
                        self.validator,
                        html_coupons(self.parser.html_parsers@, content@, source_url@, d, now),
                        now,
                    ),
                    ContentType::Json => match json_doc(content@) {
                        None => r@.len() == 0,
                        Some(doc) => views(r@) == valid_views(self.validator, json_coupons(doc, source_url@, d, now), now),
                    },
                    ContentType::Csv => match csv_rows(content@) {
                        None => r@.len() == 0,
                        Some(rows) => views(r@) == valid_views(self.validator, csv_coupons(rows, source_url@, d, now), now),
                    },
                    ContentType::Unknown => views(r@) == valid_views(
                        self.validator,
                        text_coupons(content@, source_url@, d, now),
                        now,
                    ),
                },
            },
    {
        match self.parser.extract_coupons(content, source_url, now) {
            Ok(coupons) => {
                let ghost parsed = coupons@;
                let r = self.keep_valid(coupons, now);
                proof {
                    lemma_valid_only_valid(self.validator, parsed, now);
                    lemma_valid_only_views(self.validator, parsed, now);
                }
                r
            },
            Err(_) => Vec::new(),
        }
    }

    /// The batch's records after deduplication.
    pub fn finish_batch(&self, coupons: Vec<RawCoupon>) -> (r: Vec<RawCoupon>)
        ensures
            r@ == deduplicated(self.deduplicator.strategy, coupons@),
    {
        self.deduplicator.deduplicate(coupons)
    }
}

pub proof fn lemma_valid_only_valid(v: Validator, s: Seq<RawCoupon>, now: i64)
    ensures
        forall|i: int| 0 <= i < valid_only(v, s, now).len() ==> coupon_ok(v, #[trigger] valid_only(v, s, now)[i], now),
    decreases s.len(),
{
    if s.len() > 0 {
        lemma_valid_only_valid(v, s.drop_last(), now);
        let p = valid_only(v, s.drop_last(), now);
        let r = valid_only(v, s, now);
        assert forall|i: int| 0 <= i < r.len() implies coupon_ok(v, #[trigger] r[i], now) by {
            if i < p.len() {
                assert(r[i] == p[i]);
            }
        }
    }
}

} // verus!
