use coupon_engine::coupon::{DiscountType, EngineConfig, JsonValue, SourceType};
use coupon_engine::engine::CouponEngine;
use coupon_engine::fetcher::{detect_content_type, ContentType};
use coupon_engine::parser::{
    extract_from_text, parse_csv, CouponExtractor, HtmlElement, ParseError, Parser,
};
use coupon_engine::text::parse_hundredths;

const NOW: i64 = 1_700_000_000;

#[test]
fn end_to_end_html_page() {
    let page = "<html><body><p>Use code <span class=\"coupon-code\">SAVE15</span> for 15% off your order, minimum purchase $50</p></body></html>";
    let engine = CouponEngine::new(EngineConfig::default());
    let valid = engine.process_content(page, "https://shop.example.com/deals", NOW);
    let result = engine.finish_batch(valid);
    assert_eq!(result.len(), 1);
    let c = &result[0];
    assert_eq!(c.code, "SAVE15");
    assert_eq!(c.discount_type, DiscountType::Percentage);
    assert_eq!(c.discount_value, Some(1500));
    assert_eq!(c.minimum_order, Some(5000));
    assert_eq!(c.merchant_domain, "shop.example.com");
}

#[test]
fn html_page_yields_element_and_text_records() {
    let page = "<html><body><p>Use code <span class=\"coupon-code\">SAVE15</span> for 15% off</p></body></html>";
    let parser = Parser::new();
    let all = parser.extract_coupons(page, "https://shop.example.com/deals", NOW).unwrap();
    assert_eq!(all.len(), 2);
    assert_eq!(all[0].code, "SAVE15");
    assert_eq!(all[0].discount_type, DiscountType::Unknown);
    assert_eq!(all[0].title, "Coupon Code");
    assert_eq!(all[1].discount_type, DiscountType::Percentage);
    assert_eq!(all[1].title, "15% Off");
}

#[test]
fn text_pass_fixed_amount_and_minimum() {
    let text = "Promo: ab12cd gives $10.50 off, Minimum order: $25.00";
    let r = extract_from_text(text, "https://x.com/", "x.com", NOW);
    assert_eq!(r.len(), 1);
    assert_eq!(r[0].code, "AB12CD");
    assert_eq!(r[0].discount_type, DiscountType::Fixed);
    assert_eq!(r[0].discount_value, Some(1050));
    assert_eq!(r[0].title, "$10.50 Off");
    assert_eq!(r[0].minimum_order, Some(2500));
    assert_eq!(r[0].merchant_name, "x.com");
    assert_eq!(r[0].source_type, SourceType::WebScraping);
}

#[test]
fn text_pass_without_discount_titles_by_code() {
    let r = extract_from_text("coupon XYZ123 today", "https://x.com/", "x.com", NOW);
    assert_eq!(r.len(), 1);
    assert_eq!(r[0].title, "Coupon Code: XYZ123");
    assert_eq!(r[0].discount_type, DiscountType::Unknown);
    assert_eq!(r[0].discount_value, None);
}

#[test]
fn text_pass_code_capped_at_twenty() {
    let r = extract_from_text("code ABCDEFGHIJKLMNOPQRSTUVWXYZ", "https://x.com/", "x.com", NOW);
    assert_eq!(r.len(), 1);
    assert_eq!(r[0].code, "ABCDEFGHIJKLMNOPQRST");
    let none = extract_from_text("code AB, promo: !", "https://x.com/", "x.com", NOW);
    assert!(none.is_empty());
}

#[test]
fn csv_records_by_position() {
    let content = "code,title,type,value\n save5 ,Five off,Percent,5\nFREESHIP,Ship,shipping,\nONLY\n";
    let r = parse_csv(content, "https://x.com/f.csv", "x.com", NOW).unwrap();
    // rows of another width are read; the one-field row gives no record
    assert_eq!(r.len(), 2);
    let blank = parse_csv("code,title
  ,No code
OK1,Fine,extra,7,more
", "https://x.com/f.csv", "x.com", NOW).unwrap();
    assert_eq!(blank.len(), 1);
    assert_eq!(blank[0].code, "OK1");
    assert_eq!(blank[0].discount_value, Some(700));
    let ok = parse_csv("code,title,type,value\n save5 ,Five off,Percent,5\nFREESHIP,Ship,shipping,\n", "https://x.com/f.csv", "x.com", NOW).unwrap();
    assert_eq!(ok.len(), 2);
    assert_eq!(ok[0].code, "SAVE5");
    assert_eq!(ok[0].discount_type, DiscountType::Percentage);
    assert_eq!(ok[0].discount_value, Some(500));
    assert_eq!(ok[1].discount_type, DiscountType::FreeShipping);
    assert_eq!(ok[1].discount_value, None);
}

#[test]
fn json_array_and_object_documents() {
    let parser = Parser::new();
    let doc = r#"[{"code":"save10","title":"Ten","discountValue":10},{"promoCode":"X1Y2Z3"},{"title":"no code"}]"#;
    let r = parser.extract_coupons(doc, "https://api.shop.com/v1", NOW).unwrap();
    assert_eq!(r.len(), 2);
    assert_eq!(r[0].code, "SAVE10");
    assert_eq!(r[0].discount_value, Some(1000));
    assert_eq!(r[0].merchant_name, "Unknown");
    assert_eq!(r[0].merchant_domain, "api.shop.com");
    assert_eq!(r[0].source_type, SourceType::AffiliateApi);
    assert_eq!(r[1].title, "Coupon");
    assert!(matches!(r[0].metadata, JsonValue::Object(_)));
    let obj = r#"{"deals":[{"couponCode":"DEAL1","minimumOrder":25.5}],"coupons":[{"code":"C1"}]}"#;
    let r = parser.extract_coupons(obj, "https://api.shop.com/v1", NOW).unwrap();
    assert_eq!(r.len(), 2);
    assert_eq!(r[0].code, "C1");
    assert_eq!(r[1].code, "DEAL1");
    assert_eq!(r[1].minimum_order, Some(2550));
    assert_eq!(parser.extract_coupons("{not json", "https://a.com", NOW).err(), Some(ParseError::InvalidJson));
    let blank = parser.extract_coupons(r#"[{"code":""},{"code":"OK2"}]"#, "https://api.shop.com/v1", NOW).unwrap();
    assert_eq!(blank.len(), 1);
    assert_eq!(blank[0].code, "OK2");
    match &blank[0].metadata {
        JsonValue::Object(entries) => assert_eq!(entries[0].0, "code"),
        other => panic!("metadata {:?}", other),
    }
}

#[test]
fn bad_url_is_refused() {
    let parser = Parser::new();
    assert_eq!(parser.extract_coupons("code ABC123", "not a url", NOW).err(), Some(ParseError::InvalidUrl));
    assert_eq!(Parser::extract_domain("https://Shop.Example.com:8080/x").unwrap(), "shop.example.com");
}

#[test]
fn content_kinds() {
    assert_eq!(detect_content_type("  {\"a\":1}"), ContentType::Json);
    assert_eq!(detect_content_type("[1]"), ContentType::Json);
    assert_eq!(detect_content_type("\n<html>"), ContentType::Html);
    assert_eq!(detect_content_type("a,b\nc,d\n"), ContentType::Csv);
    assert_eq!(detect_content_type("a\tb"), ContentType::Csv);
    assert_eq!(detect_content_type(""), ContentType::Csv);
    assert_eq!(detect_content_type("a,b\n\nc,d"), ContentType::Unknown);
    assert_eq!(detect_content_type("use code SAVE10"), ContentType::Unknown);
}

#[test]
fn amounts_in_hundredths() {
    let p = |s: &str| parse_hundredths(&s.chars().collect());
    assert_eq!(p("15"), Some(1500));
    assert_eq!(p("49.99"), Some(4999));
    assert_eq!(p("10.5"), Some(1050));
    assert_eq!(p("10."), None);
    assert_eq!(p(".5"), None);
    assert_eq!(p("1.234"), None);
    assert_eq!(p("abc"), None);
    assert_eq!(p(""), None);
    assert_eq!(p("184467440737095516"), Some(18_446_744_073_709_551_600));
    assert_eq!(p("184467440737095517"), None);
}

#[test]
fn element_extraction_rules() {
    let ex = CouponExtractor::generic();
    let el = |code: Option<&str>, clip: Option<&str>, title: Option<&str>, text: &str| HtmlElement {
        coupon_code_attr: code.map(String::from),
        clipboard_attr: clip.map(String::from),
        data_title_attr: None,
        title_attr: title.map(String::from),
        text: text.to_string(),
    };
    let r = ex.extract(&el(Some("abc12"), Some("zzz999"), None, "ignored"), "https://a.com", "a.com", NOW).unwrap();
    assert_eq!(r.code, "ABC12");
    assert_eq!(r.title, "Coupon Code");
    let r = ex.extract(&el(None, Some("clip77"), Some("Big"), ""), "https://a.com", "a.com", NOW).unwrap();
    assert_eq!(r.code, "CLIP77");
    assert_eq!(r.title, "Big");
    let r = ex.extract(&el(None, None, None, "  word1 word2"), "https://a.com", "a.com", NOW).unwrap();
    assert_eq!(r.code, "WORD1");
    assert!(ex.extract(&el(None, None, None, "  ab  "), "https://a.com", "a.com", NOW).is_none());
    assert!(ex.extract(&el(None, None, None, "   "), "https://a.com", "a.com", NOW).is_none());
}
