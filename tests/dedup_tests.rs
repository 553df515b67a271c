use coupon_engine::coupon::{DiscountType, JsonValue, RawCoupon, SourceType};
use coupon_engine::dedup::{DeduplicationStrategy, Deduplicator};

fn create_test_coupon(code: &str, merchant: &str) -> RawCoupon {
    RawCoupon {
        code: code.to_string(),
        title: format!("{} Discount", code),
        description: None,
        discount_type: DiscountType::Percentage,
        discount_value: Some(1000),
        minimum_order: None,
        maximum_discount: None,
        valid_from: None,
        valid_until: None,
        merchant_name: merchant.to_string(),
        merchant_domain: format!("{}.com", merchant.to_lowercase()),
        source_url: format!("https://{}.com", merchant.to_lowercase()),
        source_type: SourceType::WebScraping,
        metadata: JsonValue::Object(Vec::new()),
        scraped_at: 0,
    }
}

fn keys(v: &[RawCoupon]) -> Vec<(String, String)> {
    v.iter().map(|c| (c.code.clone(), c.merchant_domain.clone())).collect()
}

#[test]
fn exact_duplicates_collapse_composition() {
    let deduplicator = Deduplicator::with_strategy(DeduplicationStrategy::CodeAndMerchant);
    let coupons = vec![
        create_test_coupon("SAVE10", "Amazon"),
        create_test_coupon("SAVE10", "Amazon"),
        create_test_coupon("SAVE10", "Target"),
        create_test_coupon("SAVE20", "Amazon"),
    ];
    let result = deduplicator.deduplicate(coupons);
    let k = keys(&result);
    assert_eq!(k.len(), 3);
    for want in [("SAVE10", "amazon.com"), ("SAVE10", "target.com"), ("SAVE20", "amazon.com")] {
        let n = k.iter().filter(|(c, d)| c == want.0 && d == want.1).count();
        assert_eq!(n, 1);
    }
}

#[test]
fn test_fuzzy_deduplication() {
    let deduplicator = Deduplicator::with_strategy(DeduplicationStrategy::Fuzzy { threshold: 800_000 });
    let coupons = vec![
        create_test_coupon("SAVE10", "Amazon"),
        create_test_coupon("SAVE1O", "Amazon"),
        create_test_coupon("DISCOUNT20", "Amazon"),
    ];
    let result = deduplicator.deduplicate(coupons);
    assert_eq!(result.len(), 2);
    assert_eq!(result[0].code, "SAVE10");
    assert_eq!(result[1].code, "DISCOUNT20");
}

#[test]
fn code_and_merchant_keeps_first_occurrence() {
    let d = Deduplicator::with_strategy(DeduplicationStrategy::CodeAndMerchant);
    let mut first = create_test_coupon("SAVE10", "Amazon");
    first.title = "first".to_string();
    let mut second = create_test_coupon("SAVE10", "Amazon");
    second.title = "second".to_string();
    let result = d.deduplicate(vec![first, second, create_test_coupon("SAVE10", "Target")]);
    assert_eq!(result.len(), 2);
    assert_eq!(result[0].title, "first");
}

#[test]
fn hash_based_separates_values() {
    let d = Deduplicator::with_strategy(DeduplicationStrategy::HashBased);
    let a = create_test_coupon("SAVE10", "Amazon");
    let mut b = create_test_coupon("SAVE10", "Amazon");
    b.discount_value = Some(1500);
    let c = create_test_coupon("SAVE10", "Amazon");
    let result = d.deduplicate(vec![a, b, c]);
    assert_eq!(result.len(), 2);
    assert_eq!(result[1].discount_value, Some(1500));
}

#[test]
fn deduplicate_twice_changes_nothing() {
    for strategy in [
        DeduplicationStrategy::CodeAndMerchant,
        DeduplicationStrategy::Fuzzy { threshold: 800_000 },
        DeduplicationStrategy::HashBased,
        DeduplicationStrategy::Combined,
    ] {
        let d = Deduplicator::with_strategy(strategy);
        let input = vec![
            create_test_coupon("SAVE10", "Amazon"),
            create_test_coupon("SAVE1O", "Amazon"),
            create_test_coupon("SAVE10", "Amazon"),
            create_test_coupon("SAVE10", "Target"),
            create_test_coupon("DISCOUNT20", "Amazon"),
        ];
        let once = d.deduplicate(input);
        let once_keys = keys(&once);
        let twice = d.deduplicate(once);
        assert_eq!(keys(&twice), once_keys);
    }
}

#[test]
fn empty_input_gives_empty_output() {
    let d = Deduplicator::new();
    assert!(d.deduplicate(Vec::new()).is_empty());
}

#[test]
fn levenshtein_exact_values() {
    let d = Deduplicator::new();
    assert_eq!(d.levenshtein_distance("kitten", "sitting"), 3);
    assert_eq!(d.levenshtein_distance("", "abc"), 3);
    assert_eq!(d.levenshtein_distance("SAVE10", "SAVE1O"), 1);
    assert_eq!(d.levenshtein_distance("same", "same"), 0);
    assert_eq!(d.levenshtein_distance("héllo", "hello"), 1);
}

#[test]
fn levenshtein_similarity_values() {
    let d = Deduplicator::new();
    assert_eq!(d.levenshtein_similarity("", ""), 1_000_000);
    assert_eq!(d.levenshtein_similarity("SAVE10", "SAVE1O"), 833_333);
    assert_eq!(d.levenshtein_similarity("abc", "xyz"), 0);
    assert!(d.levenshtein_similarity("kitten", "sitting") <= 1_000_000);
}

#[test]
fn similarity_is_symmetric_and_reflexive() {
    let d = Deduplicator::new();
    let a = create_test_coupon("SAVE10", "Amazon");
    let b = create_test_coupon("DISCOUNT20", "Amazon");
    assert_eq!(d.similarity_score(&a, &b), d.similarity_score(&b, &a));
    assert_eq!(d.similarity_score(&a, &a), 1_000_000);
}

#[test]
fn similarity_exact_value() {
    let d = Deduplicator::new();
    let a = create_test_coupon("SAVE10", "Amazon");
    let b = create_test_coupon("SAVE1O", "Amazon");
    // code 5/6, title 14/15, same type and value
    assert_eq!(d.similarity_score(&a, &b), (4 * 833_333 + 3 * 933_333) / 10 + 300_000);
    let mut c = create_test_coupon("SAVE10", "Amazon");
    c.discount_value = None;
    assert_eq!(d.similarity_score(&c, &c), 900_000);
}

#[test]
fn combined_also_merges_near_codes_of_one_merchant() {
    // SAVE10 and SAVE20 at amazon.com score 0.913 > 0.85 in the fuzzy pass.
    let deduplicator = Deduplicator::new();
    let coupons = vec![
        create_test_coupon("SAVE10", "Amazon"),
        create_test_coupon("SAVE10", "Amazon"),
        create_test_coupon("SAVE10", "Target"),
        create_test_coupon("SAVE20", "Amazon"),
    ];
    let result = deduplicator.deduplicate(coupons);
    assert_eq!(
        keys(&result),
        vec![
            ("SAVE10".to_string(), "amazon.com".to_string()),
            ("SAVE10".to_string(), "target.com".to_string()),
        ]
    );
}

#[test]
fn digest_of_key_fields() {
    let d = Deduplicator::new();
    let c = create_test_coupon("SAVE10", "Amazon");
    assert_eq!(d.compute_coupon_hash(&c), "ade532d65a15128be7efd6778932f3bb8856f6a2a87cb8d482c17a7d43ce69ba");
    let mut f = create_test_coupon("SAVE10", "Amazon");
    f.discount_type = DiscountType::Fixed;
    f.discount_value = Some(4950);
    assert_eq!(d.compute_coupon_hash(&f), "98cda78568fa240ed291ca5322f3b2c6ae5bfc3c59826940bc7ed8d88e86d2f7");
}

#[test]
fn stats_count_removals_and_merchants() {
    let d = Deduplicator::with_strategy(DeduplicationStrategy::CodeAndMerchant);
    let original = vec![
        create_test_coupon("SAVE10", "Amazon"),
        create_test_coupon("SAVE10", "Amazon"),
        create_test_coupon("SAVE10", "Target"),
        create_test_coupon("SAVE20", "Amazon"),
    ];
    let kept = d.deduplicate(vec![
        create_test_coupon("SAVE10", "Amazon"),
        create_test_coupon("SAVE10", "Amazon"),
        create_test_coupon("SAVE10", "Target"),
        create_test_coupon("SAVE20", "Amazon"),
    ]);
    let stats = d.get_deduplication_stats(&original, &kept);
    assert_eq!((stats.original_count, stats.deduplicated_count, stats.removed_count), (4, 3, 1));
    assert_eq!(stats.deduplication_rate, 2_500);
    assert_eq!(stats.merchant_stats, vec![("amazon.com".to_string(), 3), ("target.com".to_string(), 1)]);
    assert_eq!(stats.deduplicated_merchant_stats, vec![("amazon.com".to_string(), 2), ("target.com".to_string(), 1)]);
    let empty = d.get_deduplication_stats(&Vec::new(), &Vec::new());
    assert_eq!(empty.deduplication_rate, 0);
}

#[test]
fn discount_tags_and_default() {
    assert_eq!(DiscountType::FreeShipping.to_string(), "free_shipping");
    assert_eq!(DiscountType::CashBack.to_string(), "cash_back");
    assert_eq!(DiscountType::default(), DiscountType::Unknown);
}
