use dealpal::analyzer::{text_contains, ProductAnalysisRequest, ProductAnalyzer};
use dealpal::cache::CacheEntry;
use dealpal::deal::{Deal, DealType};
use dealpal::events::KafkaTopics;
use dealpal::stacking::StackSmartEngine;

fn request(url: &str) -> ProductAnalysisRequest {
    ProductAnalysisRequest {
        url: url.to_string(),
        page_title: "t".to_string(),
        text_content: String::new(),
        images: None,
    }
}

#[test]
fn analyzer_reads_product_urls() {
    let a = ProductAnalyzer::new();
    let r = a.analyze_product_page(&request("https://shop.example/product/42"));
    assert!(r.is_product_page);
    assert_eq!(r.confidence, 800);
    assert_eq!(r.source, "rust-analyzer");
    assert_eq!(r.evidence, vec!["url_analysis".to_string()]);
    let r = a.analyze_product_page(&request("https://shop.example/cart"));
    assert!(!r.is_product_page);
    assert_eq!(r.confidence, 200);
}

#[test]
fn text_search_edges() {
    assert!(text_contains("abc", ""));
    assert!(text_contains("abc", "abc"));
    assert!(text_contains("xxabc", "abc"));
    assert!(!text_contains("ab", "abc"));
    assert!(!text_contains("abxc", "abc"));
}

#[test]
fn cache_entry_expires_after_its_ttl() {
    let e = CacheEntry::new(7u32, 1000, 5000);
    assert_eq!(e.data, 7);
    assert_eq!(e.expires_at, 6000);
    assert!(!e.is_expired(6000));
    assert!(e.is_expired(6001));
}

#[test]
fn kafka_topics_default_names() {
    let t = KafkaTopics::default();
    assert_eq!(t.deals, "dealpal.deals");
    assert_eq!(t.prices, "dealpal.prices");
    assert_eq!(t.user_events, "dealpal.user.events");
    assert_eq!(t.notifications, "dealpal.notifications");
    assert_eq!(t.inventory, "dealpal.inventory");
    assert_eq!(t.analytics, "dealpal.analytics");
}

fn catalog_deal() -> Deal {
    Deal {
        id: 1,
        external_id: "e".to_string(),
        title: "t".to_string(),
        description: None,
        original_price: 20000,
        discounted_price: None,
        discount_percentage: None,
        currency: "INR".to_string(),
        product_url: "u".to_string(),
        image_url: None,
        merchant: "m".to_string(),
        category: None,
        deal_type: DealType::Coupon,
        coupon_code: None,
        cashback_rate: None,
        cashback_type: None,
        minimum_order_value: None,
        maximum_discount: None,
        valid_from: 0,
        valid_until: None,
        is_active: true,
        is_verified: false,
        verification_date: None,
        usage_count: 0,
        success_rate: None,
        tags: Some(vec!["x".to_string()]),
        created_at: 0,
        updated_at: 0,
    }
}

#[test]
fn catalog_deal_savings_and_final_price() {
    let mut d = catalog_deal();
    assert_eq!(d.calculate_savings(), 0);
    assert_eq!(d.get_final_price(), 20000);
    d.discount_percentage = Some(2500);
    assert_eq!(d.calculate_savings(), 5000);
    assert_eq!(d.get_final_price(), 15000);
    d.discounted_price = Some(12000);
    assert_eq!(d.calculate_savings(), 8000);
    assert_eq!(d.get_final_price(), 12000);
    let copy = d.duplicate();
    assert_eq!(copy.tags, Some(vec!["x".to_string()]));
}

#[test]
fn catalog_deal_expiry() {
    let mut d = catalog_deal();
    assert!(!d.is_expired(100));
    assert_eq!(d.days_until_expiry(100), None);
    d.valid_until = Some(100 + 2 * 86400 + 10);
    assert_eq!(d.days_until_expiry(100), Some(2));
    assert!(!d.is_expired(100));
    d.valid_until = Some(100 - 86400 - 10);
    assert_eq!(d.days_until_expiry(100), Some(-1));
    assert!(d.is_expired(100));
}

#[test]
fn engine_constructs() {
    let _engine = StackSmartEngine::new();
}
