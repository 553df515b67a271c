use coupon_engine::coupon::{DiscountType, JsonValue, RawCoupon, SourceType};
use coupon_engine::validator::{ValidationError, Validator};
use std::time::{SystemTime, UNIX_EPOCH};

fn now() -> i64 {
    SystemTime::now().duration_since(UNIX_EPOCH).unwrap().as_secs() as i64
}

const DAY: i64 = 86_400;

fn coupon(code: &str, title: &str, value: u64, t: i64) -> RawCoupon {
    RawCoupon {
        code: code.to_string(),
        title: title.to_string(),
        description: None,
        discount_type: DiscountType::Percentage,
        discount_value: Some(value),
        minimum_order: None,
        maximum_discount: None,
        valid_from: None,
        valid_until: Some(t + 30 * DAY),
        merchant_name: "Test Store".to_string(),
        merchant_domain: "teststore.com".to_string(),
        source_url: "https://teststore.com".to_string(),
        source_type: SourceType::WebScraping,
        metadata: JsonValue::Object(Vec::new()),
        scraped_at: t,
    }
}

#[test]
fn test_valid_coupon() {
    let validator = Validator::new();
    let t = now();
    let c = coupon("SAVE20", "20% Off", 2000, t);
    assert!(validator.is_valid(&c, t));
}

#[test]
fn test_invalid_code_pattern() {
    let validator = Validator::new();
    let t = now();
    let c = coupon("AAAA", "Test", 1000, t);
    assert!(!validator.is_valid(&c, t));
}

#[test]
fn repetition_rejected_and_plain_code_accepted() {
    let v = Validator::new();
    let t = 1_700_000_000;
    assert!(!v.is_valid(&coupon("AAAA", "x", 1000, t), t));
    assert!(v.is_valid(&coupon("SAVE20", "x", 1000, t), t));
    assert!(v.has_repetitive_pattern("ABAB"));
    assert!(v.has_repetitive_pattern("ABABA"));
    assert!(!v.has_repetitive_pattern("ABA"));
    assert!(!v.has_repetitive_pattern("ABABC"));
}

#[test]
fn code_gate_cases() {
    let v = Validator::new();
    assert!(v.validate_code("SAVE20"));
    assert!(!v.validate_code("AB"));
    assert!(!v.validate_code("save20"));
    assert!(!v.validate_code("MYTEST10"));
    assert!(!v.validate_code("FAKECODE"));
    assert!(!v.validate_code(&"A1".repeat(26)));
    assert!(v.validate_code(&"AB1".repeat(16)));
}

#[test]
fn discount_gate_cases() {
    let v = Validator::new();
    assert!(v.validate_discount(&DiscountType::Percentage, Some(100)));
    assert!(v.validate_discount(&DiscountType::Percentage, Some(9900)));
    assert!(!v.validate_discount(&DiscountType::Percentage, Some(9901)));
    assert!(!v.validate_discount(&DiscountType::Percentage, None));
    assert!(v.validate_discount(&DiscountType::Fixed, Some(1_000_000)));
    assert!(!v.validate_discount(&DiscountType::Fixed, Some(99)));
    assert!(v.validate_discount(&DiscountType::FreeShipping, None));
    assert!(v.validate_discount(&DiscountType::Bogo, None));
    assert!(v.validate_discount(&DiscountType::CashBack, Some(10_000)));
    assert!(!v.validate_discount(&DiscountType::CashBack, Some(10_001)));
    assert!(v.validate_discount(&DiscountType::Points, Some(10_000_000)));
    assert!(!v.validate_discount(&DiscountType::Unknown, Some(1000)));
}

#[test]
fn date_gate_cases() {
    let v = Validator::new();
    let t = 1_700_000_000;
    let mut c = coupon("SAVE20", "x", 1000, t);
    c.valid_until = Some(t - 1);
    assert!(!v.validate_dates(&c, t));
    c.valid_until = Some(t + 366 * DAY);
    assert!(!v.validate_dates(&c, t));
    c.valid_until = Some(t + 365 * DAY + DAY / 2);
    assert!(!v.validate_dates(&c, t));
    c.valid_until = Some(t + 365 * DAY);
    assert!(v.validate_dates(&c, t));
    c.valid_until = None;
    c.valid_from = Some(t + 1);
    assert!(!v.validate_dates(&c, t));
    c.valid_from = Some(t - 10);
    c.valid_until = Some(t);
    assert!(v.validate_dates(&c, t));
}

#[test]
fn domain_gate_cases() {
    let v = Validator::new();
    assert!(v.is_valid_domain("teststore.com"));
    assert!(v.is_valid_domain("shop.example.com"));
    assert!(!v.is_valid_domain("a.b"));
    assert!(!v.is_valid_domain("-bad.com"));
    assert!(!v.is_valid_domain("bad..com"));
    assert!(!v.is_valid_domain("bad.com."));
    assert!(!v.is_valid_domain("under_score.com"));
}

#[test]
fn failed_gates_are_listed_in_order() {
    let v = Validator::new();
    let t = 1_700_000_000;
    let mut c = coupon("AAAA", "x", 1000, t);
    c.discount_type = DiscountType::Unknown;
    c.merchant_name = String::new();
    assert_eq!(
        v.get_validation_errors(&c, t),
        vec![ValidationError::Code, ValidationError::Discount, ValidationError::Merchant]
    );
    let good = coupon("SAVE20", "x", 1000, t);
    let results = v.validate_batch(vec![good, c], t);
    assert!(results[0].is_valid);
    assert!(results[0].validation_errors.is_empty());
    assert!(!results[1].is_valid);
    assert_eq!(results[1].validation_errors.len(), 3);
}
