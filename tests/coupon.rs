use dealpal::coupon::{calculate_discount, evaluate_coupon, Coupon, CouponDiscountType};

fn coupon(discount_type: CouponDiscountType, value: Option<u64>) -> Coupon {
    Coupon {
        id: "c".to_string(),
        merchant_id: "m".to_string(),
        code: "SAVE10".to_string(),
        title: "Save".to_string(),
        description: None,
        discount_type,
        discount_value: value,
        minimum_order: None,
        maximum_discount: None,
        valid_from: None,
        valid_until: None,
        usage_limit: None,
        usage_count: None,
        is_active: Some(true),
        source: "scraped".to_string(),
        affiliate_network: None,
        created_at: 0,
        updated_at: 0,
    }
}

#[test]
fn percentage_coupon_is_capped() {
    let mut c = coupon(CouponDiscountType::Percentage, Some(1000));
    assert_eq!(calculate_discount(&c, 50000), Some(5000));
    c.maximum_discount = Some(3000);
    assert_eq!(calculate_discount(&c, 50000), Some(3000));
}

#[test]
fn fixed_and_free_shipping_coupons() {
    let c = coupon(CouponDiscountType::Fixed, Some(750));
    assert_eq!(calculate_discount(&c, 100), Some(750));
    let c = coupon(CouponDiscountType::FreeShipping, None);
    assert_eq!(calculate_discount(&c, 100), Some(1000));
    let c = coupon(CouponDiscountType::Unsupported, Some(5));
    assert_eq!(calculate_discount(&c, 100), None);
    let c = coupon(CouponDiscountType::Percentage, None);
    assert_eq!(calculate_discount(&c, 100), None);
}

#[test]
fn coupon_below_minimum_order_is_invalid() {
    let mut c = coupon(CouponDiscountType::Fixed, Some(500));
    c.minimum_order = Some(10000);
    let r = evaluate_coupon(&c, 9999);
    assert!(!r.is_valid);
    assert_eq!(r.discount_applied, None);
    assert_eq!(r.final_price, 9999);
    let r = evaluate_coupon(&c, 10000);
    assert!(r.is_valid);
    assert_eq!(r.discount_applied, Some(500));
    assert_eq!(r.final_price, 9500);
    assert_eq!(r.code, "SAVE10");
}
