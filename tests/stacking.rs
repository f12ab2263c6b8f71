use dealpal::stacking::{
    check_join, Deal, DealType, StackDealsRequest, StackSmartEngine, StackViolation, StackWarning,
    ValidateStackRequest, ValueType,
};

fn deal(id: &str, deal_type: DealType, value_type: ValueType, value: u64) -> Deal {
    Deal {
        id: id.to_string(),
        title: format!("deal {}", id),
        description: String::new(),
        deal_type,
        value,
        value_type,
        code: None,
        min_purchase: None,
        max_discount: None,
        platform: "shop".to_string(),
        confidence: 900,
        stackable: true,
        terms: vec!["terms apply".to_string()],
        priority: 1,
    }
}

fn optimize(deals: Vec<Deal>, base: u64) -> dealpal::stacking::StackedDealResult {
    let engine = StackSmartEngine::new();
    engine.optimize_deals(StackDealsRequest {
        deals,
        base_price: base,
        merchant: "shop".to_string(),
    })
}

fn ids(r: &dealpal::stacking::StackedDealResult) -> Vec<String> {
    r.application_order.clone()
}

#[test]
fn optimize_without_deals_keeps_base_price() {
    let r = optimize(vec![], 12345);
    assert_eq!(r.final_price, 12345);
    assert_eq!(r.total_savings, 0);
    assert_eq!(r.original_price, 12345);
    assert!(r.warnings.is_empty());
    assert!(r.deals.is_empty());
}

#[test]
fn optimize_applies_by_priority_then_id() {
    let mut pct = deal("b", DealType::Cashback, ValueType::Percentage, 1000);
    pct.priority = 1;
    let mut fixed = deal("a", DealType::WalletOffer, ValueType::Fixed, 1000);
    fixed.priority = 2;
    let mut other = deal("a2", DealType::Cashback, ValueType::Fixed, 500);
    other.priority = 1;
    let r = optimize(vec![fixed, pct, other], 10000);
    // a2 (prio 1) and b (prio 1) by id, then a (prio 2): 10000 - 500 = 9500,
    // less 10% = 8550, less 1000 = 7550.
    assert_eq!(ids(&r), vec!["a2", "b", "a"]);
    assert_eq!(r.final_price, 7550);
    assert_eq!(r.total_savings, 2450);
    assert_eq!(r.deals.len(), 3);
    assert_eq!(r.deals[0].id, "a2");
    assert_eq!(r.deals[0].terms, vec!["terms apply".to_string()]);
}

#[test]
fn optimize_keeps_only_the_best_coupon() {
    let c1 = deal("c1", DealType::Coupon, ValueType::Fixed, 300);
    let c2 = deal("c2", DealType::Coupon, ValueType::Fixed, 700);
    let cb = deal("cb", DealType::Cashback, ValueType::Fixed, 100);
    let r = optimize(vec![c1, c2, cb], 10000);
    let coupons = r.deals.iter().filter(|d| d.deal_type == DealType::Coupon).count();
    assert_eq!(coupons, 1);
    assert_eq!(ids(&r), vec!["c2", "cb"]);
    assert_eq!(r.final_price, 9200);
    assert_eq!(r.total_savings, 800);
    assert_eq!(r.warnings.len(), 1);
    match &r.warnings[0] {
        StackWarning::NotCombined { deal_id } => assert_eq!(deal_id, "c1"),
        other => panic!("unexpected warning {:?}", other),
    }
}

#[test]
fn optimize_non_stackable_deal_stands_alone() {
    let mut excl = deal("x", DealType::Discount, ValueType::Fixed, 5000);
    excl.stackable = false;
    let a = deal("a", DealType::Cashback, ValueType::Fixed, 1000);
    let c = deal("c", DealType::Coupon, ValueType::Fixed, 1000);
    let r = optimize(vec![a, excl, c], 10000);
    assert_eq!(ids(&r), vec!["x"]);
    assert_eq!(r.final_price, 5000);
    let left_out: Vec<String> = r
        .warnings
        .iter()
        .map(|w| match w {
            StackWarning::NotCombined { deal_id } => deal_id.clone(),
            other => panic!("unexpected warning {:?}", other),
        })
        .collect();
    assert_eq!(left_out, vec!["a".to_string(), "c".to_string()]);

    let mut small = deal("x", DealType::Discount, ValueType::Fixed, 100);
    small.stackable = false;
    let a = deal("a", DealType::Cashback, ValueType::Fixed, 1000);
    let r = optimize(vec![small, a], 10000);
    assert_eq!(ids(&r), vec!["a"]);
    assert!(r.deals.iter().all(|d| d.stackable));
}

#[test]
fn optimize_clamps_at_zero_with_a_warning() {
    let big = deal("big", DealType::Cashback, ValueType::Fixed, 20000);
    let r = optimize(vec![big], 10000);
    assert_eq!(r.final_price, 0);
    assert_eq!(r.total_savings, 10000);
    assert_eq!(r.warnings.len(), 1);
    assert!(matches!(r.warnings[0], StackWarning::PriceClampedToZero));
}

#[test]
fn optimize_exact_discount_to_zero_is_not_clamped() {
    let all = deal("all", DealType::Cashback, ValueType::Fixed, 10000);
    let r = optimize(vec![all], 10000);
    assert_eq!(r.final_price, 0);
    assert!(r.warnings.is_empty());
}

#[test]
fn optimize_reports_ineligible_deals() {
    let mut min = deal("min", DealType::Cashback, ValueType::Fixed, 100);
    min.min_purchase = Some(20000);
    let mut card = deal("card", DealType::CardOffer, ValueType::Fixed, 100);
    card.platform = "elsewhere".to_string();
    let ok = deal("ok", DealType::Cashback, ValueType::Fixed, 100);
    let r = optimize(vec![min, card, ok], 10000);
    assert_eq!(ids(&r), vec!["ok"]);
    assert_eq!(r.warnings.len(), 2);
    match &r.warnings[0] {
        StackWarning::MinimumPurchaseNotMet { deal_id } => assert_eq!(deal_id, "min"),
        other => panic!("unexpected warning {:?}", other),
    }
    match &r.warnings[1] {
        StackWarning::MerchantMismatch { deal_id } => assert_eq!(deal_id, "card"),
        other => panic!("unexpected warning {:?}", other),
    }
}

#[test]
fn optimize_caps_percentage_at_max_discount() {
    let mut pct = deal("p", DealType::Cashback, ValueType::Percentage, 5000);
    pct.max_discount = Some(1000);
    let r = optimize(vec![pct], 10000);
    assert_eq!(r.final_price, 9000);
    assert_eq!(r.total_savings, 1000);
}

#[test]
fn optimize_rounds_half_to_even_once() {
    // 10% of 125 cents leaves 112.5 cents: rounds to 112.
    let pct = deal("p", DealType::Cashback, ValueType::Percentage, 1000);
    let r = optimize(vec![pct], 125);
    assert_eq!(r.final_price, 112);
    assert_eq!(r.total_savings, 13);
    // 10% of 135 cents leaves 121.5 cents: rounds to 122.
    let pct = deal("p", DealType::Cashback, ValueType::Percentage, 1000);
    let r = optimize(vec![pct], 135);
    assert_eq!(r.final_price, 122);
}

#[test]
fn optimize_confidence_is_the_weakest_link() {
    let mut a = deal("a", DealType::Cashback, ValueType::Fixed, 100);
    a.confidence = 700;
    let mut b = deal("b", DealType::WalletOffer, ValueType::Fixed, 100);
    b.confidence = 400;
    let r = optimize(vec![a, b], 10000);
    assert_eq!(r.confidence, 400);
}

#[test]
fn optimize_ties_prefer_confidence_then_fewer_deals() {
    let mut c1 = deal("c1", DealType::Coupon, ValueType::Fixed, 500);
    c1.confidence = 500;
    let mut c2 = deal("c2", DealType::Coupon, ValueType::Fixed, 500);
    c2.confidence = 800;
    let r = optimize(vec![c1, c2], 10000);
    assert_eq!(ids(&r), vec!["c2"]);

    let zero = deal("zero", DealType::Coupon, ValueType::Fixed, 0);
    let r = optimize(vec![zero], 10000);
    assert!(r.deals.is_empty());
    assert_eq!(r.final_price, 10000);
}

#[test]
fn optimize_is_deterministic() {
    let make = || {
        vec![
            deal("c1", DealType::Coupon, ValueType::Fixed, 500),
            deal("c2", DealType::Coupon, ValueType::Fixed, 500),
            deal("w", DealType::WalletOffer, ValueType::Percentage, 250),
        ]
    };
    let r1 = optimize(make(), 9999);
    let r2 = optimize(make(), 9999);
    assert_eq!(r1.application_order, r2.application_order);
    assert_eq!(r1.final_price, r2.final_price);
    assert_eq!(r1.total_savings, r2.total_savings);
    assert_eq!(r1.confidence, r2.confidence);
    assert_eq!(r1.application_order, vec!["c1", "w"]);
}

fn validate(deals: Vec<Deal>, base: u64) -> dealpal::stacking::ValidateStackResponse {
    StackSmartEngine::new().validate_deal_stack(ValidateStackRequest {
        deals,
        base_price: base,
        merchant: "shop".to_string(),
    })
}

#[test]
fn validate_rejects_two_coupons() {
    let c1 = deal("c1", DealType::Coupon, ValueType::Fixed, 100);
    let c2 = deal("c2", DealType::Coupon, ValueType::Fixed, 100);
    let r = validate(vec![c1, c2], 10000);
    assert!(!r.valid);
    assert!(r.total_savings.is_none());
    assert!(r.final_price.is_none());
    let err = r.error.expect("an error");
    assert!(matches!(err, StackViolation::TwoCouponDeals { .. }));
    let msg = err.message();
    assert!(!msg.is_empty());
    assert_eq!(msg, "two coupon-type deals: c2");
}

#[test]
fn validate_rejects_non_stackable_in_a_stack() {
    let a = deal("a", DealType::Cashback, ValueType::Fixed, 100);
    let mut x = deal("x", DealType::Discount, ValueType::Fixed, 100);
    x.stackable = false;
    let r = validate(vec![a, x], 10000);
    assert!(!r.valid);
    assert_eq!(
        r.error.unwrap().message(),
        "non-stackable deal combined with others: x"
    );
}

#[test]
fn validate_names_minimum_purchase() {
    let mut a = deal("a", DealType::Cashback, ValueType::Fixed, 100);
    a.min_purchase = Some(50000);
    let r = validate(vec![a], 10000);
    assert!(!r.valid);
    assert_eq!(
        r.error.unwrap().message(),
        "minimum purchase not met for deal a"
    );
}

#[test]
fn validate_names_merchant_mismatch() {
    let mut a = deal("a", DealType::CardOffer, ValueType::Fixed, 100);
    a.platform = "other".to_string();
    let r = validate(vec![a], 10000);
    assert_eq!(r.error.unwrap().message(), "merchant mismatch for deal a");
}

#[test]
fn validate_totals_in_caller_order() {
    let mut fixed = deal("f", DealType::WalletOffer, ValueType::Fixed, 1000);
    fixed.priority = 5;
    let mut pct = deal("p", DealType::Cashback, ValueType::Percentage, 1000);
    pct.priority = 1;
    // Caller order: fixed first, then 10% of 9000.
    let r = validate(vec![fixed, pct], 10000);
    assert!(r.valid);
    assert!(r.error.is_none());
    assert_eq!(r.final_price, Some(8100));
    assert_eq!(r.total_savings, Some(1900));
    assert_eq!(r.confidence, Some(900));
    assert!(r.warnings.is_empty());
}

#[test]
fn validate_reports_clamping() {
    let big = deal("big", DealType::Cashback, ValueType::Fixed, 50000);
    let r = validate(vec![big], 10000);
    assert!(r.valid);
    assert_eq!(r.final_price, Some(0));
    assert_eq!(r.total_savings, Some(10000));
    assert!(matches!(r.warnings[0], StackWarning::PriceClampedToZero));
}

#[test]
fn check_join_applies_rules_in_order() {
    let merchant = "shop".to_string();
    let c1 = deal("c1", DealType::Coupon, ValueType::Fixed, 100);
    let c2 = deal("c2", DealType::Coupon, ValueType::Fixed, 100);
    let cb = deal("cb", DealType::Cashback, ValueType::Fixed, 100);
    assert!(check_join(&vec![], &c1, 10000, &merchant).is_none());
    assert!(check_join(&vec![c1.clone()], &cb, 10000, &merchant).is_none());
    assert!(matches!(
        check_join(&vec![c1.clone(), cb.clone()], &c2, 10000, &merchant),
        Some(StackViolation::TwoCouponDeals { .. })
    ));
    let mut x = deal("x", DealType::Discount, ValueType::Fixed, 100);
    x.stackable = false;
    assert!(check_join(&vec![], &x, 10000, &merchant).is_none());
    assert!(matches!(
        check_join(&vec![cb.clone()], &x, 10000, &merchant),
        Some(StackViolation::NonStackableCombined { .. })
    ));
    assert!(matches!(
        check_join(&vec![x.clone()], &cb, 10000, &merchant),
        Some(StackViolation::NonStackableCombined { .. })
    ));
    let mut card = deal("card", DealType::CardOffer, ValueType::Fixed, 100);
    card.platform = "other".to_string();
    assert!(matches!(
        check_join(&vec![], &card, 10000, &merchant),
        Some(StackViolation::MerchantMismatch { .. })
    ));
}

#[test]
fn optimize_rounds_only_the_exact_final_price() {
    // 50.01% off 3 cents leaves exactly 1.4997 cents, which rounds to 1.
    let pct = deal("p", DealType::Cashback, ValueType::Percentage, 5001);
    let r = optimize(vec![pct], 3);
    assert_eq!(r.final_price, 1);
    assert_eq!(r.total_savings, 2);
    let pct = deal("p", DealType::Cashback, ValueType::Percentage, 5001);
    let v = validate(vec![pct], 3);
    assert_eq!(v.final_price, Some(1));
    assert_eq!(v.total_savings, Some(2));
}

#[test]
fn optimize_keeps_exact_precision_over_many_percentages() {
    // Ten 10% discounts on 1000.00: 100000 * 0.9^10 = 34867.844... cents.
    let deals: Vec<Deal> = (0..10)
        .map(|i| deal(&format!("p{}", i), DealType::Cashback, ValueType::Percentage, 1000))
        .collect();
    let r = optimize(deals, 100000);
    assert_eq!(r.final_price, 34868);
    assert_eq!(r.total_savings, 65132);
}

#[test]
fn clamping_is_judged_on_the_final_price_only() {
    let mut fixed = deal("f", DealType::Cashback, ValueType::Fixed, 150);
    fixed.priority = 1;
    let mut all = deal("p", DealType::WalletOffer, ValueType::Percentage, 10000);
    all.priority = 2;
    let r = optimize(vec![fixed.clone(), all.clone()], 100);
    assert_eq!(ids(&r), vec!["f", "p"]);
    assert_eq!(r.final_price, 0);
    assert!(r.warnings.is_empty());
    let v = validate(vec![fixed, all], 100);
    assert_eq!(v.final_price, Some(0));
    assert!(v.warnings.is_empty());
}

#[test]
fn optimize_applies_a_repeated_id_once() {
    let a = deal("a", DealType::Cashback, ValueType::Fixed, 100);
    let again = deal("a", DealType::WalletOffer, ValueType::Fixed, 500);
    let r = optimize(vec![a, again], 10000);
    assert_eq!(ids(&r), vec!["a"]);
    assert_eq!(r.final_price, 9900);
    assert_eq!(r.warnings.len(), 1);
    match &r.warnings[0] {
        StackWarning::DuplicateDeal { deal_id } => assert_eq!(deal_id, "a"),
        other => panic!("unexpected warning {:?}", other),
    }
}
