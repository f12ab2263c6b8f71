use dealpal::card::{
    bank_offer_discount, bank_offer_discount_exact, calculate_card_benefit,
    calculate_milestone_progress, category_rate_of, BankOffer, CardVault, CategoryReward,
    Milestone, RewardType,
};

fn card() -> CardVault {
    CardVault {
        id: "card-1".to_string(),
        bank_name: "HDFC".to_string(),
        card_type: "Infinia".to_string(),
        base_reward_rate: 500,
        reward_type: RewardType::Cashback,
        point_value_inr: 100,
        category_rewards: vec![CategoryReward {
            category: "electronics".to_string(),
            rate_bp: 1000,
        }],
        bank_offers: vec![],
        milestone_config: vec![],
        current_points: 0,
    }
}

#[test]
fn card_benefit_base_and_category_rewards() {
    let c = card();
    // 1000.00 in cents.
    let r = calculate_card_benefit(&c, &"Amazon".to_string(), &"electronics".to_string(), 100000, 0);
    assert_eq!(r.base_reward, 5000);
    assert_eq!(r.category_bonus, 10000);
    assert_eq!(r.bank_offer_discount, 0);
    assert_eq!(r.total_benefit, 15000);
    assert_eq!(r.effective_price, 85000);
    assert_eq!(r.total_savings, 15000);
    assert_eq!(r.savings_percentage, 1500);
    assert_eq!(r.points_earned, 0);
    assert_eq!(r.card_name, "HDFC Infinia");
    assert_eq!(r.card_id, "card-1");
    assert!(r.milestone_progress.is_none());
    assert_eq!(r.score, 15000);
}

#[test]
fn card_benefit_absent_category_gives_no_bonus() {
    let c = card();
    let r = calculate_card_benefit(&c, &"Amazon".to_string(), &"Electronics".to_string(), 100000, 2000);
    assert_eq!(r.category_bonus, 0);
    assert_eq!(r.total_benefit, 5000);
    assert_eq!(r.effective_price, 93000);
    assert_eq!(r.total_savings, 7000);
}

#[test]
fn card_benefit_effective_price_may_go_negative() {
    let c = card();
    let r = calculate_card_benefit(&c, &"x".to_string(), &"electronics".to_string(), 1000, 2000);
    assert_eq!(r.effective_price, 1000 - 2000 - 150);
}

#[test]
fn bank_offers_match_ignoring_case_and_add_up() {
    let offers = vec![
        BankOffer { merchant: "AMAZON".to_string(), discount_bp: 1000 },
        BankOffer { merchant: "flipkart".to_string(), discount_bp: 500 },
        BankOffer { merchant: "Amazon".to_string(), discount_bp: 200 },
    ];
    assert_eq!(bank_offer_discount(&offers, &"amazon".to_string(), 100000), 12000);
    assert_eq!(bank_offer_discount(&offers, &"Flipkart".to_string(), 100000), 5000);
    assert_eq!(bank_offer_discount(&offers, &"myntra".to_string(), 100000), 0);
}

#[test]
fn bank_offers_exact_match_on_folded_names() {
    let offers = vec![
        BankOffer { merchant: "amazon".to_string(), discount_bp: 1000 },
        BankOffer { merchant: "Amazon".to_string(), discount_bp: 200 },
    ];
    assert_eq!(bank_offer_discount_exact(&offers, &"amazon".to_string(), 100000), 10000);
    assert_eq!(bank_offer_discount_exact(&offers, &"Amazon".to_string(), 100000), 2000);
}

#[test]
fn card_benefit_includes_bank_offers() {
    let mut c = card();
    c.bank_offers = vec![BankOffer { merchant: "AMAZON".to_string(), discount_bp: 1000 }];
    let r = calculate_card_benefit(&c, &"amazon".to_string(), &"books".to_string(), 100000, 0);
    assert_eq!(r.bank_offer_discount, 10000);
    assert_eq!(r.total_benefit, 15000);
}

#[test]
fn category_lookup_is_exact_and_first_wins() {
    let rewards = vec![
        CategoryReward { category: "dining".to_string(), rate_bp: 300 },
        CategoryReward { category: "dining".to_string(), rate_bp: 900 },
    ];
    assert_eq!(category_rate_of(&rewards, &"dining".to_string()), 300);
    assert_eq!(category_rate_of(&rewards, &"Dining".to_string()), 0);
}

#[test]
fn points_card_earns_points_and_milestone_bonus() {
    let mut c = card();
    c.reward_type = RewardType::Points;
    c.current_points = 100;
    c.milestone_config = vec![Milestone { threshold: 500, reward_value: 50000 }];
    // 5% of 1000.00 is 50.00: 50 points worth 1.00 each.
    let r = calculate_card_benefit(&c, &"x".to_string(), &"none".to_string(), 100000, 0);
    assert_eq!(r.points_earned, 50);
    assert_eq!(r.points_value_inr, 5000);
    let m = r.milestone_progress.expect("a milestone");
    assert_eq!(m.points_after_purchase, 150);
    assert_eq!(m.next_milestone, 500);
    assert_eq!(m.points_to_milestone, 350);
    assert_eq!(m.milestone_value, 50000);
    // savings 5000, half the points value 2500, a fifth of the milestone 10000.
    assert_eq!(r.score, 5000 + 2500 + 10000);
}

#[test]
fn milestone_reached_gives_none() {
    let mut c = card();
    c.current_points = 900;
    c.milestone_config = vec![Milestone { threshold: 1000, reward_value: 500 }];
    assert!(calculate_milestone_progress(&c, 200).is_none());
}

#[test]
fn milestone_scan_takes_first_match_in_given_order() {
    let mut c = card();
    c.current_points = 100;
    c.milestone_config = vec![
        Milestone { threshold: 50, reward_value: 1 },
        Milestone { threshold: 5000, reward_value: 2 },
        Milestone { threshold: 1000, reward_value: 3 },
    ];
    let m = calculate_milestone_progress(&c, 0).expect("a milestone");
    assert_eq!(m.next_milestone, 5000);
    assert_eq!(m.milestone_value, 2);
    assert_eq!(m.current_points, 100);
    assert_eq!(m.points_to_milestone, 4900);
}

#[test]
fn rank_cards_best_score_first_stable_on_ties() {
    let mut low = card();
    low.id = "low".to_string();
    low.base_reward_rate = 100;
    low.category_rewards = vec![];
    let mut high = card();
    high.id = "high".to_string();
    let mut tie = card();
    tie.id = "tie".to_string();
    let cards = vec![low, high, tie];
    let ranked = dealpal::card::rank_cards(&cards, &"shop".to_string(), &"electronics".to_string(), 100000, 0);
    let ids: Vec<&str> = ranked.iter().map(|a| a.card_id.as_str()).collect();
    assert_eq!(ids, vec!["high", "tie", "low"]);
    assert_eq!(ranked[0].score, 15000);
    assert_eq!(ranked[2].score, 1000);
}
