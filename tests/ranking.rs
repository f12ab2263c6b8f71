use dealpal::deal::{CashbackType, Deal, DealType};
use dealpal::ranking::{
    calculate_net_savings, calculate_urgency_score, calculate_stacking_potential, calculate_typical_spend, create_default_preferences,
    create_empty_activity, rank_offers, stable_order_desc, BrowsingEvent, Purchase, RankedOffer,
    RankingWeights, ScoreInputs, SpendRange,
};

const NOW: i64 = 1_700_000_000;
const DAY: i64 = 86400;

fn deal(id: i32) -> Deal {
    Deal {
        id,
        external_id: format!("ext-{}", id),
        title: "Phone".to_string(),
        description: None,
        original_price: 100000,
        discounted_price: None,
        discount_percentage: None,
        currency: "INR".to_string(),
        product_url: "https://shop.example/p".to_string(),
        image_url: None,
        merchant: "shop".to_string(),
        category: Some("electronics".to_string()),
        deal_type: DealType::PriceDiscount,
        coupon_code: None,
        cashback_rate: None,
        cashback_type: None,
        minimum_order_value: Some(1),
        maximum_discount: None,
        valid_from: 0,
        valid_until: None,
        is_active: true,
        is_verified: true,
        verification_date: None,
        usage_count: 0,
        success_rate: None,
        tags: None,
        created_at: 0,
        updated_at: 0,
    }
}

fn rank_one(d: Deal) -> RankedOffer {
    let prefs = create_default_preferences(&"u".to_string());
    let activity = create_empty_activity(&"u".to_string());
    RankedOffer::calculate_ranking(
        d,
        &prefs,
        &activity,
        &RankingWeights::default(),
        ScoreInputs { net_savings_score: 500, reward_points_score: 0 },
        NOW,
    )
}

#[test]
fn urgency_steps_by_days_left() {
    let mut d = deal(1);
    d.valid_until = Some(NOW + DAY);
    assert_eq!(rank_one(d).ranking_components.urgency_score, 1000);
    let mut d = deal(1);
    d.valid_until = Some(NOW + 10 * DAY);
    assert_eq!(rank_one(d).ranking_components.urgency_score, 400);
    let d = deal(1);
    assert_eq!(rank_one(d).ranking_components.urgency_score, 100);
    let mut d = deal(1);
    d.valid_until = Some(NOW + 3 * DAY);
    assert_eq!(rank_one(d).ranking_components.urgency_score, 800);
    let mut d = deal(1);
    d.valid_until = Some(NOW + 7 * DAY + 5);
    assert_eq!(rank_one(d).ranking_components.urgency_score, 600);
    let mut d = deal(1);
    d.valid_until = Some(NOW + 30 * DAY);
    assert_eq!(rank_one(d).ranking_components.urgency_score, 200);
}

#[test]
fn default_weights_are_the_documented_ones() {
    let w = RankingWeights::default();
    assert_eq!(w.net_savings, 400);
    assert_eq!(w.cashback_realization, 200);
    assert_eq!(w.reward_points, 100);
    assert_eq!(w.threshold_proximity, 100);
    assert_eq!(w.personal_preference, 100);
    assert_eq!(w.urgency, 50);
    assert_eq!(w.popularity, 50);
    assert_eq!(w.stacking_potential, 0);
}

#[test]
fn scores_combine_by_weight() {
    let mut d = deal(1);
    d.cashback_type = Some(CashbackType::Wallet);
    d.coupon_code = Some("SAVE".to_string());
    d.usage_count = 2000;
    d.success_rate = Some(8000);
    let r = rank_one(d);
    let c = r.ranking_components;
    assert_eq!(c.cashback_realization_score, 800);
    assert_eq!(c.popularity_score, 500 + 400);
    assert_eq!(c.stacking_potential_score, 300);
    assert_eq!(c.threshold_proximity_score, 0);
    assert_eq!(c.personal_preference_score, 0);
    assert_eq!(c.reward_points_score, 0);
    let expected = 500 * 400 + 800 * 200 + 100 * 50 + 900 * 50;
    assert_eq!(r.ranking_score, expected);
    assert_eq!(r.personalization_data.payment_method_compatibility, 800);
    assert_eq!(r.personalization_data.geographic_relevance, 900);
    assert!(r.stacking_opportunities.is_empty());
}

#[test]
fn personal_preference_counts_favourites_and_browsing() {
    let mut prefs = create_default_preferences(&"u".to_string());
    prefs.favorite_categories = vec!["electronics".to_string()];
    prefs.favorite_merchants = vec!["shop".to_string()];
    let mut activity = create_empty_activity(&"u".to_string());
    let event = BrowsingEvent {
        category: "electronics".to_string(),
        merchant: None,
        price_range: SpendRange { min_amount: 0, max_amount: 1, currency: "INR".to_string() },
        timestamp: 0,
    };
    activity.browsing_history = vec![event];
    let r = RankedOffer::calculate_ranking(
        deal(1),
        &prefs,
        &activity,
        &RankingWeights::default(),
        ScoreInputs { net_savings_score: 0, reward_points_score: 0 },
        NOW,
    );
    assert_eq!(r.ranking_components.personal_preference_score, 400 + 400 + 100);
    assert_eq!(r.personalization_data.user_category_affinity, 1000);
    assert_eq!(r.personalization_data.merchant_preference_score, 1000);
    assert_eq!(r.personalization_data.price_range_match, 1000);
}

#[test]
fn threshold_proximity_needs_spend_just_below_minimum() {
    let mut activity = create_empty_activity(&"u".to_string());
    let p = |amount: u64| Purchase {
        merchant: "shop".to_string(),
        category: "electronics".to_string(),
        amount,
        currency: "INR".to_string(),
        timestamp: 0,
    };
    activity.recent_purchases = vec![p(8000), p(10000)];
    assert_eq!(calculate_typical_spend(&activity), 9000);
    let prefs = create_default_preferences(&"u".to_string());
    let mut d = deal(1);
    d.minimum_order_value = Some(10000);
    let r = RankedOffer::calculate_ranking(
        d,
        &prefs,
        &activity,
        &RankingWeights::default(),
        ScoreInputs { net_savings_score: 0, reward_points_score: 0 },
        NOW,
    );
    assert_eq!(r.ranking_components.threshold_proximity_score, 900);
    assert_eq!(calculate_typical_spend(&create_empty_activity(&"u".to_string())), 0);
}

#[test]
fn net_savings_adds_cashback_on_final_price() {
    let mut d = deal(1);
    d.discount_percentage = Some(1000);
    d.cashback_rate = Some(500);
    // 10% of 1000.00 off, then 5% of 900.00 back.
    assert_eq!(calculate_net_savings(&d), 10000 + 4500);
}

#[test]
fn ranking_is_descending_and_stable() {
    let keys: Vec<u128> = vec![5, 9, 5, 7, 9];
    assert_eq!(stable_order_desc(&keys, 10), vec![1, 4, 3, 0, 2]);
    assert_eq!(stable_order_desc(&keys, 2), vec![1, 4]);
    assert_eq!(stable_order_desc(&vec![], 3), Vec::<usize>::new());
}

#[test]
fn rank_offers_sorts_and_truncates() {
    let prefs = create_default_preferences(&"u".to_string());
    let activity = create_empty_activity(&"u".to_string());
    let deals = vec![deal(1), deal(2), deal(3), deal(4)];
    let inputs = vec![
        ScoreInputs { net_savings_score: 300, reward_points_score: 0 },
        ScoreInputs { net_savings_score: 900, reward_points_score: 0 },
        ScoreInputs { net_savings_score: 300, reward_points_score: 0 },
        ScoreInputs { net_savings_score: 600, reward_points_score: 0 },
    ];
    let weights = RankingWeights::default();
    let all = rank_offers(&deals, &inputs, &prefs, &activity, &weights, NOW, None);
    let ids: Vec<i32> = all.ranked_offers.iter().map(|o| o.deal.id).collect();
    assert_eq!(ids, vec![2, 4, 1, 3]);
    assert_eq!(all.total_count, 4);
    assert!(all.personalization_applied);
    assert_eq!(all.ranking_timestamp, NOW);
    for w in all.ranked_offers.windows(2) {
        assert!(w[0].ranking_score >= w[1].ranking_score);
    }
    let top = rank_offers(&deals, &inputs, &prefs, &activity, &weights, NOW, Some(2));
    let ids: Vec<i32> = top.ranked_offers.iter().map(|o| o.deal.id).collect();
    assert_eq!(ids, vec![2, 4]);
    assert_eq!(top.total_count, 2);
}

#[test]
fn default_profile_values() {
    let p = create_default_preferences(&"user-7".to_string());
    assert_eq!(p.user_id, "user-7");
    assert!(p.favorite_categories.is_empty());
    assert_eq!(p.typical_spend_range.min_amount, 0);
    assert_eq!(p.typical_spend_range.max_amount, 500000);
    assert_eq!(p.typical_spend_range.currency, "INR");
    assert_eq!(p.preferred_cashback_types, vec![CashbackType::Instant, CashbackType::Wallet]);
    assert!(p.notification_preferences.price_drop_alerts);
    let a = create_empty_activity(&"user-7".to_string());
    assert!(a.recent_purchases.is_empty() && a.browsing_history.is_empty());
}

#[test]
fn threshold_proximity_uses_the_exact_mean() {
    let mut activity = create_empty_activity(&"u".to_string());
    let p = |amount: u64| Purchase {
        merchant: "shop".to_string(),
        category: "electronics".to_string(),
        amount,
        currency: "INR".to_string(),
        timestamp: 0,
    };
    // The mean 24999.5 is at least 80% of 31249 (24999.2), though its
    // rounded-down value 24999 is not.
    activity.recent_purchases = vec![p(24999), p(25000)];
    let prefs = create_default_preferences(&"u".to_string());
    let mut d = deal(1);
    d.minimum_order_value = Some(31249);
    let r = RankedOffer::calculate_ranking(
        d,
        &prefs,
        &activity,
        &RankingWeights::default(),
        ScoreInputs { net_savings_score: 0, reward_points_score: 0 },
        NOW,
    );
    assert_eq!(r.ranking_components.threshold_proximity_score, 900);
    let mut d = deal(1);
    d.minimum_order_value = Some(24999);
    let r = RankedOffer::calculate_ranking(
        d,
        &prefs,
        &activity,
        &RankingWeights::default(),
        ScoreInputs { net_savings_score: 0, reward_points_score: 0 },
        NOW,
    );
    assert_eq!(r.ranking_components.threshold_proximity_score, 0);
}

#[test]
fn net_savings_counts_cashback_on_a_negative_price() {
    let mut d = deal(1);
    d.original_price = 100;
    d.discount_percentage = Some(20000);
    d.cashback_rate = Some(1000);
    // 200 off leaves -100; 10% of that is -10.
    assert_eq!(calculate_net_savings(&d), 190);
    // 205 off leaves -105; 10% of that, -10.5, truncates toward zero.
    d.discount_percentage = Some(20500);
    assert_eq!(calculate_net_savings(&d), 195);
}

#[test]
fn sub_scores_are_callable_directly() {
    let mut d = deal(1);
    d.valid_until = Some(NOW + DAY);
    assert_eq!(calculate_urgency_score(&d, NOW), 1000);
    d.valid_until = Some(NOW + 10 * DAY);
    assert_eq!(calculate_urgency_score(&d, NOW), 400);
    d.valid_until = None;
    assert_eq!(calculate_urgency_score(&d, NOW), 100);
    d.minimum_order_value = None;
    d.coupon_code = Some("X".to_string());
    d.cashback_rate = Some(100);
    assert_eq!(calculate_stacking_potential(&d), 1000);
}
