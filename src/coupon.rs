//! The coupon record and the engine's configuration.
use vstd::prelude::*;
use crate::text::string_from_chars;

verus! {


/// The kind of saving a coupon grants.
#[derive(Clone, Copy, Debug, PartialEq, Eq, Structural)]
pub enum DiscountType {
    Percentage,
    Fixed,
    FreeShipping,
    Bogo,
    CashBack,
    Points,
    Unknown,
}

/// Where a coupon record came from.
#[derive(Clone, Copy, Debug, PartialEq, Eq, Structural)]
pub enum SourceType {
    AffiliateApi,
    WebScraping,
    UserSubmitted,
    PartnerApi,
}

/// A structured value tree (the shape of a JSON document). Numbers keep
/// their source text.
#[derive(Debug)]
pub enum JsonValue {
    Null,
    Bool(bool),
    Number(String),
    Str(String),
    Array(Vec<JsonValue>),
    Object(Vec<(String, JsonValue)>),
}

/// One extracted coupon.
///
/// Money amounts and discount values are in hundredths (`1550` is 15.50);
/// timestamps are seconds since the Unix epoch, UTC.
#[derive(Debug)]
pub struct RawCoupon {
    pub code: String,
    pub title: String,
    pub description: Option<String>,
    pub discount_type: DiscountType,
    pub discount_value: Option<u64>,
    pub minimum_order: Option<u64>,
    pub maximum_discount: Option<u64>,
    pub valid_from: Option<i64>,
    pub valid_until: Option<i64>,
    pub merchant_name: String,
    pub merchant_domain: String,
    pub source_url: String,
    pub source_type: SourceType,
    pub metadata: JsonValue,
    pub scraped_at: i64,
}

/// What a coupon record says, as values.
pub struct CouponView {
    pub code: Seq<char>,
    pub title: Seq<char>,
    pub description: Option<Seq<char>>,
    pub discount_type: DiscountType,
    pub discount_value: Option<u64>,
    pub minimum_order: Option<u64>,
    pub maximum_discount: Option<u64>,
    pub valid_from: Option<i64>,
    pub valid_until: Option<i64>,
    pub merchant_name: Seq<char>,
    pub merchant_domain: Seq<char>,
    pub source_url: Seq<char>,
    pub source_type: SourceType,
    pub scraped_at: i64,
}

pub open spec fn opt_view(s: Option<String>) -> Option<Seq<char>> {
    match s {
        Some(t) => Some(t@),
        None => None,
    }
}

impl View for RawCoupon {
    type V = CouponView;

    open spec fn view(&self) -> CouponView {
        CouponView {
            code: self.code@,
            title: self.title@,
            description: opt_view(self.description),
            discount_type: self.discount_type,
            discount_value: self.discount_value,
            minimum_order: self.minimum_order,
            maximum_discount: self.maximum_discount,
            valid_from: self.valid_from,
            valid_until: self.valid_until,
            merchant_name: self.merchant_name@,
            merchant_domain: self.merchant_domain@,
            source_url: self.source_url@,
            source_type: self.source_type,
            scraped_at: self.scraped_at,
        }
    }
}

/// The views of a list of records.
pub open spec fn views(s: Seq<RawCoupon>) -> Seq<CouponView> {
    s.map_values(|c: RawCoupon| c@)
}

pub proof fn lemma_views_push(prev: Seq<RawCoupon>, c: RawCoupon)
    ensures
        views(prev.push(c)) == views(prev).push(c@),
{
    assert(views(prev.push(c)) =~= views(prev).push(c@));
}

/// A copy of an optional string.
pub fn clone_opt_string(s: &Option<String>) -> (r: Option<String>)
    ensures
        r == *s,
{
    match s {
        Some(t) => Some(t.clone()),
        None => None,
    }
}

/// The lower-case tag naming a discount type.
pub open spec fn discount_tag(t: DiscountType) -> Seq<char> {
    match t {
        DiscountType::Percentage => seq!['p', 'e', 'r', 'c', 'e', 'n', 't', 'a', 'g', 'e'],
        DiscountType::Fixed => seq!['f', 'i', 'x', 'e', 'd'],
        DiscountType::FreeShipping => seq!['f', 'r', 'e', 'e', '_', 's', 'h', 'i', 'p', 'p', 'i', 'n', 'g'],
        DiscountType::Bogo => seq!['b', 'o', 'g', 'o'],
        DiscountType::CashBack => seq!['c', 'a', 's', 'h', '_', 'b', 'a', 'c', 'k'],
        DiscountType::Points => seq!['p', 'o', 'i', 'n', 't', 's'],
        DiscountType::Unknown => seq!['u', 'n', 'k', 'n', 'o', 'w', 'n'],
    }
}

impl DiscountType {
    /// The type's tag, as characters.
    pub fn tag_chars(&self) -> (r: Vec<char>)
        ensures
            r@ == discount_tag(*self),
    {
        let r = match self {
            DiscountType::Percentage => vec!['p', 'e', 'r', 'c', 'e', 'n', 't', 'a', 'g', 'e'],
            DiscountType::Fixed => vec!['f', 'i', 'x', 'e', 'd'],
            DiscountType::FreeShipping => vec!['f', 'r', 'e', 'e', '_', 's', 'h', 'i', 'p', 'p', 'i', 'n', 'g'],
            DiscountType::Bogo => vec!['b', 'o', 'g', 'o'],
            DiscountType::CashBack => vec!['c', 'a', 's', 'h', '_', 'b', 'a', 'c', 'k'],
            DiscountType::Points => vec!['p', 'o', 'i', 'n', 't', 's'],
            DiscountType::Unknown => vec!['u', 'n', 'k', 'n', 'o', 'w', 'n'],
        };
        assert(r@ =~= discount_tag(*self));
        r
    }

    /// The type's tag (`"percentage"`, `"free_shipping"`, ...).
    pub fn to_string(&self) -> (r: String)
        ensures
            r@ == discount_tag(*self),
    {
        let v = self.tag_chars();
        string_from_chars(&v)
    }
}

impl Default for DiscountType {
    /// The type a record has when nothing says otherwise.
    fn default() -> (r: Self)
        ensures
            r == DiscountType::Unknown,
    {
        DiscountType::Unknown
    }
}

/// Options of the engine.
#[derive(Clone, Copy, Debug)]
pub struct EngineConfig {
    pub max_concurrent_requests: usize,
    pub request_timeout_secs: u64,
    pub retry_attempts: u32,
    pub rate_limit_per_domain: u32,
    pub proxy_rotation_enabled: bool,
    pub user_agent_rotation: bool,
    pub cache_duration_secs: u64,
}

impl Default for EngineConfig {
    fn default() -> (r: Self)
        ensures
            r.max_concurrent_requests == 100,
            r.request_timeout_secs == 30,
            r.retry_attempts == 3,
            r.rate_limit_per_domain == 10,
            r.proxy_rotation_enabled,
            r.user_agent_rotation,
            r.cache_duration_secs == 3600,
    {
        EngineConfig {
            max_concurrent_requests: 100,
            request_timeout_secs: 30,
            retry_attempts: 3,
            rate_limit_per_domain: 10,
            proxy_rotation_enabled: true,
            user_agent_rotation: true,
            cache_duration_secs: 3600,
        }
    }
}

} // verus!
