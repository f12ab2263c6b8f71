use vstd::prelude::*;
use crate::deal::{CashbackType, Deal, whole_days};
use crate::money::div_toward_zero;

verus! {

/// A spending range in cents.
#[derive(Debug, Clone)]
pub struct SpendRange {
    pub min_amount: u64,
    pub max_amount: u64,
    pub currency: String,
}

#[derive(Debug, Clone, Copy, PartialEq, Eq, Structural)]
pub struct NotificationPreferences {
    pub threshold_alerts: bool,
    pub expiry_reminders: bool,
    pub new_offer_alerts: bool,
    pub price_drop_alerts: bool,
}

#[derive(Debug, Clone)]
pub struct UserPreferences {
    pub user_id: String,
    pub favorite_categories: Vec<String>,
    pub favorite_merchants: Vec<String>,
    pub typical_spend_range: SpendRange,
    pub preferred_cashback_types: Vec<CashbackType>,
    pub notification_preferences: NotificationPreferences,
}

/// A past purchase; `amount` in cents, `timestamp` in Unix seconds.
#[derive(Debug, Clone)]
pub struct Purchase {
    pub merchant: String,
    pub category: String,
    pub amount: u64,
    pub currency: String,
    pub timestamp: i64,
}

#[derive(Debug, Clone)]
pub struct BrowsingEvent {
    pub category: String,
    pub merchant: Option<String>,
    pub price_range: SpendRange,
    pub timestamp: i64,
}

#[derive(Debug, Clone)]
pub struct UserActivity {
    pub user_id: String,
    pub recent_purchases: Vec<Purchase>,
    pub browsing_history: Vec<BrowsingEvent>,
    pub saved_offers: Vec<i32>,
    pub redeemed_offers: Vec<i32>,
}

/// The weight of each sub-score, in thousandths.
#[derive(Debug, Clone, Copy, PartialEq, Eq, Structural)]
pub struct RankingWeights {
    pub net_savings: u32,
    pub cashback_realization: u32,
    pub reward_points: u32,
    pub threshold_proximity: u32,
    pub personal_preference: u32,
    pub urgency: u32,
    pub popularity: u32,
    pub stacking_potential: u32,
}

impl Default for RankingWeights {
    fn default() -> (r: Self)
        ensures
            r == (RankingWeights {
                net_savings: 400,
                cashback_realization: 200,
                reward_points: 100,
                threshold_proximity: 100,
                personal_preference: 100,
                urgency: 50,
                popularity: 50,
                stacking_potential: 0,
            }),
    {
        RankingWeights {
            net_savings: 400,
            cashback_realization: 200,
            reward_points: 100,
            threshold_proximity: 100,
            personal_preference: 100,
            urgency: 50,
            popularity: 50,
            stacking_potential: 0,
        }
    }
}

/// The eight sub-scores of an offer, in thousandths.
#[derive(Debug, Clone, Copy, PartialEq, Eq, Structural)]
pub struct RankingComponents {
    pub net_savings_score: u32,
    pub cashback_realization_score: u32,
    pub reward_points_score: u32,
    pub threshold_proximity_score: u32,
    pub personal_preference_score: u32,
    pub urgency_score: u32,
    pub popularity_score: u32,
    pub stacking_potential_score: u32,
}

/// How well an offer fits the user, in thousandths.
#[derive(Debug, Clone, Copy, PartialEq, Eq, Structural)]
pub struct PersonalizationData {
    pub user_category_affinity: u32,
    pub merchant_preference_score: u32,
    pub price_range_match: u32,
    pub payment_method_compatibility: u32,
    pub geographic_relevance: u32,
}

/// The kinds of combination an offer may take part in.
#[derive(Debug, Clone, Copy, PartialEq, Eq, Structural)]
pub enum StackType {
    CouponPlusCashback,
    CardOfferPlusCoupon,
    BankOfferPlusWallet,
    MultipleCoupons,
    RewardPointsBonus,
}

/// A combination of offers; `additional_savings` in cents.
#[derive(Debug, Clone)]
pub struct StackingOpportunity {
    pub stack_type: StackType,
    pub additional_savings: u64,
    pub combined_offer_ids: Vec<i32>,
    pub description: String,
}

/// The two squashed values a caller supplies for one deal, in thousandths:
/// the logistic of the deal's net savings (see `calculate_net_savings`),
/// and that of the user's card reward for it, 0 with no card context. Each
/// is at most 1000.
#[derive(Debug, Clone, Copy, PartialEq, Eq, Structural)]
pub struct ScoreInputs {
    pub net_savings_score: u32,
    pub reward_points_score: u32,
}

/// A deal with its score for one user; `ranking_score` in millionths.
#[derive(Debug)]
pub struct RankedOffer {
    pub deal: Deal,
    pub ranking_score: u128,
    pub ranking_components: RankingComponents,
    pub personalization_data: PersonalizationData,
    pub stacking_opportunities: Vec<StackingOpportunity>,
}

/// Ranked offers for one user; `ranking_timestamp` in Unix seconds.
#[derive(Debug)]
pub struct OfferRankingResponse {
    pub ranked_offers: Vec<RankedOffer>,
    pub total_count: usize,
    pub personalization_applied: bool,
    pub ranking_timestamp: i64,
}

pub open spec fn lists(v: Seq<String>, s: Seq<char>) -> bool {
    exists|i: int| 0 <= i < v.len() && (#[trigger] v[i])@ == s
}

/// The deal's category, or the empty text.
pub open spec fn category_text(deal: Deal) -> Seq<char> {
    match deal.category {
        Some(c) => c@,
        None => Seq::empty(),
    }
}

/// The cashback rate applied to the deal's final price, whatever its sign,
/// in cents, truncated toward zero.
pub open spec fn cashback_amount(deal: Deal) -> int {
    match deal.cashback_rate {
        Some(rate) => div_toward_zero(deal.final_price_spec() * rate, 10000),
        None => 0,
    }
}

/// What the deal saves, in cents: its discount plus its cashback.
pub open spec fn net_savings(deal: Deal) -> int {
    deal.savings_spec() + cashback_amount(deal)
}

pub open spec fn cashback_realization(deal: Deal) -> int {
    match deal.cashback_type {
        Some(CashbackType::Instant) => 1000,
        Some(CashbackType::Wallet) => 800,
        Some(CashbackType::BankTransfer) => 500,
        _ => 300,
    }
}

pub open spec fn purchase_total(ps: Seq<Purchase>) -> int
    decreases ps.len(),
{
    if ps.len() == 0 {
        0
    } else {
        purchase_total(ps.drop_last()) + ps.last().amount
    }
}

/// The mean of the recent purchase amounts, rounded down; 0 with none.
pub open spec fn typical_spend(activity: UserActivity) -> int {
    let ps = activity.recent_purchases@;
    if ps.len() == 0 {
        0
    } else {
        purchase_total(ps) / ps.len() as int
    }
}

/// 900 when the exact mean of the recent purchases lies in [80%, 100%) of
/// the deal's minimum order value, else 0 (also with no purchases).
pub open spec fn threshold_proximity(deal: Deal, activity: UserActivity) -> int {
    let ps = activity.recent_purchases@;
    let n = ps.len() as int;
    let total = purchase_total(ps);
    match deal.minimum_order_value {
        Some(t) => if n > 0 && 10 * total >= 8 * t * n && total < t * n {
            900
        } else {
            0
        },
        None => 0,
    }
}

pub open spec fn browse_count(events: Seq<BrowsingEvent>, category: Seq<char>) -> int
    decreases events.len(),
{
    if events.len() == 0 {
        0
    } else {
        browse_count(events.drop_last(), category) + if events.last().category@ == category {
            1int
        } else {
            0
        }
    }
}

pub open spec fn personal_preference(deal: Deal, prefs: UserPreferences, activity: UserActivity) -> int {
    let cat = if deal.category.is_some() && lists(
        prefs.favorite_categories@,
        deal.category.unwrap()@,
    ) {
        400int
    } else {
        0
    };
    let merchant = if lists(prefs.favorite_merchants@, deal.merchant@) {
        400int
    } else {
        0
    };
    let count = browse_count(activity.browsing_history@, category_text(deal));
    cat + merchant + if 100 * count < 200 {
        100 * count
    } else {
        200
    }
}

/// A step on the whole days left: 1000 up to one day, 800 up to three, 600
/// up to seven, 400 up to fourteen, 200 beyond; 100 for a deal that does
/// not end.
pub open spec fn urgency(deal: Deal, now: int) -> int {
    match deal.valid_until {
        Some(e) => {
            let days = whole_days(e - now);
            if days <= 1 {
                1000
            } else if days <= 3 {
                800
            } else if days <= 7 {
                600
            } else if days <= 14 {
                400
            } else {
                200
            }
        },
        None => 100,
    }
}

/// Usage up to 500 (one per use), plus half the success rate.
pub open spec fn popularity(deal: Deal) -> int {
    let usage = if deal.usage_count < 500 {
        deal.usage_count as int
    } else {
        500
    };
    usage + match deal.success_rate {
        Some(r) => r / 20,
        None => 0,
    }
}

pub open spec fn stacking_potential(deal: Deal) -> int {
    (if deal.coupon_code.is_some() {
        300int
    } else {
        0
    }) + (if deal.cashback_rate.is_some() {
        400int
    } else {
        0
    }) + (if deal.minimum_order_value.is_none() {
        300int
    } else {
        0
    })
}

pub open spec fn components_of(
    deal: Deal,
    prefs: UserPreferences,
    activity: UserActivity,
    inputs: ScoreInputs,
    now: int,
) -> RankingComponents {
    RankingComponents {
        net_savings_score: inputs.net_savings_score,
        cashback_realization_score: cashback_realization(deal) as u32,
        reward_points_score: inputs.reward_points_score,
        threshold_proximity_score: threshold_proximity(deal, activity) as u32,
        personal_preference_score: personal_preference(deal, prefs, activity) as u32,
        urgency_score: urgency(deal, now) as u32,
        popularity_score: popularity(deal) as u32,
        stacking_potential_score: stacking_potential(deal) as u32,
    }
}

/// The weighted sum of the sub-scores, in millionths.
pub open spec fn weighted_score(c: RankingComponents, w: RankingWeights) -> int {
    c.net_savings_score * w.net_savings + c.cashback_realization_score * w.cashback_realization
        + c.reward_points_score * w.reward_points + c.threshold_proximity_score
        * w.threshold_proximity + c.personal_preference_score * w.personal_preference
        + c.urgency_score * w.urgency + c.popularity_score * w.popularity
        + c.stacking_potential_score * w.stacking_potential
}

/// The deal's final price as a share of the user's spend range, in
/// thousandths: 1000 inside it, the ratio to the bound outside it.
pub open spec fn price_range_match(deal: Deal, prefs: UserPreferences) -> int {
    let f = deal.final_price_spec();
    let lo = prefs.typical_spend_range.min_amount as int;
    let hi = prefs.typical_spend_range.max_amount as int;
    if lo <= f && f <= hi {
        1000
    } else if f < lo {
        if f <= 0 {
            0
        } else {
            f * 1000 / lo
        }
    } else {
        hi * 1000 / f
    }
}

pub open spec fn personalization_of(deal: Deal, prefs: UserPreferences) -> PersonalizationData {
    PersonalizationData {
        user_category_affinity: if deal.category.is_some() && lists(
            prefs.favorite_categories@,
            deal.category.unwrap()@,
        ) {
            1000
        } else {
            0
        },
        merchant_preference_score: if lists(prefs.favorite_merchants@, deal.merchant@) {
            1000
        } else {
            0
        },
        price_range_match: price_range_match(deal, prefs) as u32,
        payment_method_compatibility: 800,
        geographic_relevance: 900,
    }
}


fn lists_exec(v: &Vec<String>, s: &String) -> (r: bool)
    ensures
        r == lists(v@, s@),
{
    let mut i: usize = 0;
    while i < v.len()
        invariant
            i <= v@.len(),
            forall|j: int| 0 <= j < i ==> (#[trigger] v@[j])@ != s@,
        decreases v@.len() - i,
    {
        if v[i] == *s {
            return true;
        }
        i = i + 1;
    }
    false
}

/// The deal's discount plus its cashback, in cents.
pub fn calculate_net_savings(deal: &Deal) -> (r: i128)
    ensures
        r == net_savings(*deal),
{
    let savings = deal.calculate_savings();
    let cashback: i128 = match deal.cashback_rate {
        Some(rate) => {
            let f = deal.get_final_price();
            let ghost bound = u64::MAX as int * u32::MAX as int / 10000;
            assert(-bound <= f <= bound);
            if f >= 0 {
                assert(f * rate <= bound * u32::MAX as int) by (nonlinear_arith)
                    requires
                        0 <= f <= bound,
                        rate <= u32::MAX,
                ;
                assert(f * rate / 10000 <= f * rate) by (nonlinear_arith)
                    requires
                        f * rate >= 0,
                ;
                f * (rate as i128) / 10000
            } else {
                let g = -f;
                assert(g * rate <= bound * u32::MAX as int) by (nonlinear_arith)
                    requires
                        0 < g <= bound,
                        rate <= u32::MAX,
                ;
                assert(g * rate / 10000 <= g * rate) by (nonlinear_arith)
                    requires
                        g * rate >= 0,
                ;
                assert(-(f * rate) == g * rate) by (nonlinear_arith)
                    requires
                        g == -f,
                ;
                -(g * (rate as i128) / 10000)
            }
        },
        None => 0,
    };
    savings + cashback
}

pub fn calculate_cashback_realization_score(deal: &Deal) -> (r: u32)
    ensures
        r == cashback_realization(*deal),
{
    match deal.cashback_type {
        Some(CashbackType::Instant) => 1000,
        Some(CashbackType::Wallet) => 800,
        Some(CashbackType::BankTransfer) => 500,
        _ => 300,
    }
}

fn purchase_sum(ps: &Vec<Purchase>) -> (r: u128)
    ensures
        r == purchase_total(ps@),
        r <= ps@.len() * u64::MAX,
{
    let mut total: u128 = 0;
    let mut i: usize = 0;
    while i < ps.len()
        invariant
            i <= ps@.len(),
            total == purchase_total(ps@.take(i as int)),
            total <= i * u64::MAX,
        decreases ps@.len() - i,
    {
        proof {
            assert(ps@.take(i + 1).drop_last() =~= ps@.take(i as int));
            assert(i * u64::MAX + u64::MAX == (i + 1) * u64::MAX) by (nonlinear_arith);
            assert((i + 1) * u64::MAX <= u64::MAX as int * u64::MAX as int) by (nonlinear_arith)
                requires
                    i + 1 <= u64::MAX,
            ;
        }
        total = total + ps[i].amount as u128;
        i = i + 1;
    }
    assert(ps@.take(i as int) =~= ps@);
    total
}

/// The mean recent purchase amount, in cents, rounded down; 0 with none.
pub fn calculate_typical_spend(activity: &UserActivity) -> (r: u128)
    ensures
        r == typical_spend(*activity),
{
    let ps = &activity.recent_purchases;
    if ps.len() == 0 {
        return 0;
    }
    purchase_sum(ps) / (ps.len() as u128)
}

pub fn calculate_threshold_proximity(deal: &Deal, activity: &UserActivity) -> (r: u32)
    ensures
        r == threshold_proximity(*deal, *activity),
{
    match deal.minimum_order_value {
        Some(t) => {
            let ps = &activity.recent_purchases;
            let n = ps.len() as u128;
            if n == 0 {
                return 0;
            }
            let total = purchase_sum(ps);
            let q = total / n;
            let r = total % n;
            let tt = t as u128;
            proof {
                vstd::arithmetic::div_mod::lemma_fundamental_div_mod(total as int, n as int);
                assert(total == n * q + r);
                assert(0 <= r < n);
                assert((total < t * n) == (q < t)) by (nonlinear_arith)
                    requires
                        total == n * q + r,
                        0 <= r < n,
                        q >= 0,
                ;
            }
            if q >= tt {
                return 0;
            }
            assert(q < t);
            if 10 * q >= 8 * tt {
                assert(10 * total >= 8 * t * n) by (nonlinear_arith)
                    requires
                        total == n * q + r,
                        r >= 0,
                        n > 0,
                        10 * q >= 8 * t,
                ;
                return 900;
            }
            let k = 8 * tt - 10 * q;
            if k >= 10 {
                assert(10 * total < 8 * t * n) by (nonlinear_arith)
                    requires
                        total == n * q + r,
                        r < n,
                        k == 8 * t - 10 * q,
                        k >= 10,
                        n > 0,
                ;
                return 0;
            }
            assert(((10 * total) >= 8 * t * n) == (10 * r >= k * n)) by (nonlinear_arith)
                requires
                    total == n * q + r,
                    k == 8 * t - 10 * q,
            ;
            assert(k * n <= 10 * n && 10 * r <= 10 * n) by (nonlinear_arith)
                requires
                    k < 10,
                    r < n,
            ;
            if 10 * r >= k * n {
                900
            } else {
                0
            }
        },
        None => 0,
    }
}

fn count_browsing(events: &Vec<BrowsingEvent>, category: &String) -> (r: usize)
    ensures
        r == browse_count(events@, category@),
{
    let mut count: usize = 0;
    let mut i: usize = 0;
    while i < events.len()
        invariant
            i <= events@.len(),
            count == browse_count(events@.take(i as int), category@),
            count <= i,
        decreases events@.len() - i,
    {
        proof {
            assert(events@.take(i + 1).drop_last() =~= events@.take(i as int));
        }
        if events[i].category == *category {
            count = count + 1;
        }
        i = i + 1;
    }
    assert(events@.take(i as int) =~= events@);
    count
}

pub fn calculate_personal_preference(deal: &Deal, prefs: &UserPreferences, activity: &UserActivity) -> (r: u32)
    ensures
        r == personal_preference(*deal, *prefs, *activity),
{
    let mut score: u32 = 0;
    if let Some(c) = &deal.category {
        if lists_exec(&prefs.favorite_categories, c) {
            score = score + 400;
        }
    }
    if lists_exec(&prefs.favorite_merchants, &deal.merchant) {
        score = score + 400;
    }
    let empty = String::new();
    let cat = match &deal.category {
        Some(c) => c,
        None => &empty,
    };
    let count = count_browsing(&activity.browsing_history, cat);
    if count < 2 {
        score + 100 * (count as u32)
    } else {
        score + 200
    }
}

pub fn calculate_urgency_score(deal: &Deal, now: i64) -> (r: u32)
    ensures
        r == urgency(*deal, now as int),
{
    match deal.days_until_expiry(now) {
        Some(days) => if days <= 1 {
            1000
        } else if days <= 3 {
            800
        } else if days <= 7 {
            600
        } else if days <= 14 {
            400
        } else {
            200
        },
        None => 100,
    }
}

pub fn calculate_popularity_score(deal: &Deal) -> (r: u32)
    ensures
        r == popularity(*deal),
{
    let usage: u32 = if deal.usage_count < 500 {
        deal.usage_count
    } else {
        500
    };
    match deal.success_rate {
        Some(rate) => usage + rate / 20,
        None => usage,
    }
}

pub fn calculate_stacking_potential(deal: &Deal) -> (r: u32)
    ensures
        r == stacking_potential(*deal),
{
    let mut score: u32 = 0;
    if deal.coupon_code.is_some() {
        score = score + 300;
    }
    if deal.cashback_rate.is_some() {
        score = score + 400;
    }
    if deal.minimum_order_value.is_none() {
        score = score + 300;
    }
    score
}

pub fn calculate_price_range_match(deal: &Deal, prefs: &UserPreferences) -> (r: u32)
    ensures
        r == price_range_match(*deal, *prefs),
{
    let f = deal.get_final_price();
    let lo = prefs.typical_spend_range.min_amount as i128;
    let hi = prefs.typical_spend_range.max_amount as i128;
    if lo <= f && f <= hi {
        1000
    } else if f < lo {
        if f <= 0 {
            0
        } else {
            assert((f as int) * 1000 / (lo as int) < 1000) by (nonlinear_arith)
                requires
                    0 < f < lo,
            ;
            (f * 1000 / lo) as u32
        }
    } else {
        assert(f > hi);
        assert((hi as int) * 1000 / (f as int) < 1000) by (nonlinear_arith)
            requires
                0 <= hi < f,
        ;
        assert(hi * 1000 <= u64::MAX as int * 1000) by (nonlinear_arith)
            requires
                0 <= hi <= u64::MAX,
        ;
        (hi * 1000 / f) as u32
    }
}

fn calculate_personalization(deal: &Deal, prefs: &UserPreferences) -> (r: PersonalizationData)
    ensures
        r == personalization_of(*deal, *prefs),
{
    let affinity: u32 = match &deal.category {
        Some(c) => if lists_exec(&prefs.favorite_categories, c) {
            1000
        } else {
            0
        },
        None => 0,
    };
    let merchant: u32 = if lists_exec(&prefs.favorite_merchants, &deal.merchant) {
        1000
    } else {
        0
    };
    PersonalizationData {
        user_category_affinity: affinity,
        merchant_preference_score: merchant,
        price_range_match: calculate_price_range_match(deal, prefs),
        payment_method_compatibility: 800,
        geographic_relevance: 900,
    }
}

fn calculate_components(
    deal: &Deal,
    prefs: &UserPreferences,
    activity: &UserActivity,
    inputs: ScoreInputs,
    now: i64,
) -> (r: RankingComponents)
    ensures
        r == components_of(*deal, *prefs, *activity, inputs, now as int),
{
    RankingComponents {
        net_savings_score: inputs.net_savings_score,
        cashback_realization_score: calculate_cashback_realization_score(deal),
        reward_points_score: inputs.reward_points_score,
        threshold_proximity_score: calculate_threshold_proximity(deal, activity),
        personal_preference_score: calculate_personal_preference(deal, prefs, activity),
        urgency_score: calculate_urgency_score(deal, now),
        popularity_score: calculate_popularity_score(deal),
        stacking_potential_score: calculate_stacking_potential(deal),
    }
}

fn product(a: u32, b: u32) -> (r: u128)
    ensures
        r == a * b,
        r <= u64::MAX,
{
    assert(a * b <= u32::MAX as int * u32::MAX as int) by (nonlinear_arith)
        requires
            a <= u32::MAX,
            b <= u32::MAX,
    ;
    (a as u128) * (b as u128)
}

fn weighted_score_exec(c: &RankingComponents, w: &RankingWeights) -> (r: u128)
    ensures
        r == weighted_score(*c, *w),
{
    product(c.net_savings_score, w.net_savings) + product(
        c.cashback_realization_score,
        w.cashback_realization,
    ) + product(c.reward_points_score, w.reward_points) + product(
        c.threshold_proximity_score,
        w.threshold_proximity,
    ) + product(c.personal_preference_score, w.personal_preference) + product(
        c.urgency_score,
        w.urgency,
    ) + product(c.popularity_score, w.popularity) + product(
        c.stacking_potential_score,
        w.stacking_potential,
    )
}

/// The score of `deal` for the user, in millionths.
pub open spec fn score_of(
    deal: Deal,
    prefs: UserPreferences,
    activity: UserActivity,
    weights: RankingWeights,
    inputs: ScoreInputs,
    now: int,
) -> int {
    weighted_score(components_of(deal, prefs, activity, inputs, now), weights)
}

impl RankedOffer {
    /// Scores `deal` for the user: its eight sub-scores, their weighted sum,
    /// and how well it fits the user's preferences.
    pub fn calculate_ranking(
        deal: Deal,
        user_prefs: &UserPreferences,
        user_activity: &UserActivity,
        weights: &RankingWeights,
        inputs: ScoreInputs,
        now: i64,
    ) -> (r: RankedOffer)
        requires
            inputs.net_savings_score <= 1000,
            inputs.reward_points_score <= 1000,
        ensures
            r.deal == deal,
            r.ranking_components == components_of(deal, *user_prefs, *user_activity, inputs, now as int),
            r.ranking_score == weighted_score(r.ranking_components, *weights),
            r.personalization_data == personalization_of(deal, *user_prefs),
            r.stacking_opportunities@.len() == 0,
    {
        let ranking_components = calculate_components(&deal, user_prefs, user_activity, inputs, now);
        let ranking_score = weighted_score_exec(&ranking_components, weights);
        let personalization_data = calculate_personalization(&deal, user_prefs);
        RankedOffer {
            deal,
            ranking_score,
            ranking_components,
            personalization_data,
            stacking_opportunities: Vec::new(),
        }
    }
}


/// Position `a` is listed before position `b`: a higher key, or an equal key
/// and an earlier position.
pub open spec fn ranks_before(keys: Seq<u128>, a: int, b: int) -> bool {
    keys[a] > keys[b] || (keys[a] == keys[b] && a < b)
}

/// `order` lists the first `limit` positions of `keys` from the highest
/// key down, keeping the input order among equal keys.
pub open spec fn is_ranking(keys: Seq<u128>, order: Seq<usize>, limit: int) -> bool {
    let n = keys.len() as int;
    &&& order.len() == if limit < n { limit } else { n }
    &&& forall|a: int| 0 <= a < order.len() ==> (#[trigger] order[a]) < n
    &&& forall|a: int, b: int|
        0 <= a < b < order.len() ==> ranks_before(keys, #[trigger] order[a] as int, #[trigger] order[b] as int)
    &&& forall|j: int, a: int|
        0 <= j < n && 0 <= a < order.len() && !order.contains(j as usize) ==> #[trigger] ranks_before(
            keys,
            order[a] as int,
            j,
        )
}

/// The positions of `keys` ranked from the highest key down, stable on
/// ties, cut to at most `limit`.
pub fn stable_order_desc(keys: &Vec<u128>, limit: usize) -> (r: Vec<usize>)
    ensures
        is_ranking(keys@, r@, limit as int),
{
    let n = keys.len();
    let mut out: Vec<usize> = Vec::new();
    let mut i: usize = 0;
    while i < n
        invariant
            n == keys@.len(),
            i <= n,
            out@.len() == i,
            forall|a: int| 0 <= a < out@.len() ==> (#[trigger] out@[a]) < i,
            forall|a: int, b: int|
                0 <= a < b < out@.len() ==> ranks_before(
                    keys@,
                    #[trigger] out@[a] as int,
                    #[trigger] out@[b] as int,
                ),
            forall|j: int| 0 <= j < i ==> #[trigger] out@.contains(j as usize),
        decreases n - i,
    {
        let ghost t = out@;
        let mut p: usize = 0;
        while p < out.len() && keys[out[p]] >= keys[i]
            invariant
                out@ == t,
                p <= t.len(),
                i < n,
                n == keys@.len(),
                forall|a: int| 0 <= a < t.len() ==> (#[trigger] t[a]) < i,
                forall|q: int| 0 <= q < p ==> ranks_before(keys@, #[trigger] t[q] as int, i as int),
            decreases t.len() - p,
        {
            p = p + 1;
        }
        proof {
            if p < t.len() {
                assert(ranks_before(keys@, i as int, t[p as int] as int));
                assert forall|q: int| p <= q < t.len() implies ranks_before(
                    keys@,
                    i as int,
                    #[trigger] t[q] as int,
                ) by {
                    if q > p {
                        assert(ranks_before(keys@, t[p as int] as int, t[q] as int));
                    }
                }
            }
        }
        out.insert(p, i);
        proof {
            let u = out@;
            assert(u.len() == t.len() + 1);
            assert forall|a: int| 0 <= a < p implies u[a] == t[a] by {}
            assert(u[p as int] == i);
            assert forall|a: int| p < a < u.len() implies u[a] == t[a - 1] by {}
            assert forall|a: int| 0 <= a < u.len() implies (#[trigger] u[a]) < i + 1 by {
                if a < p {
                } else if a > p {
                    assert(u[a] == t[a - 1]);
                }
            }
            assert forall|a: int, b: int| 0 <= a < b < u.len() implies ranks_before(
                keys@,
                #[trigger] u[a] as int,
                #[trigger] u[b] as int,
            ) by {
                if b < p {
                    assert(ranks_before(keys@, t[a] as int, t[b] as int));
                } else if b == p {
                    assert(ranks_before(keys@, t[a] as int, i as int));
                } else if a < p {
                    assert(u[b] == t[b - 1]);
                    assert(ranks_before(keys@, t[a] as int, t[b - 1] as int));
                } else if a == p {
                    assert(u[b] == t[b - 1]);
                    assert(ranks_before(keys@, i as int, t[b - 1] as int));
                } else {
                    assert(u[a] == t[a - 1] && u[b] == t[b - 1]);
                    assert(ranks_before(keys@, t[a - 1] as int, t[b - 1] as int));
                }
            }
            assert forall|j: int| 0 <= j < i + 1 implies #[trigger] u.contains(j as usize) by {
                if j == i {
                    assert(u[p as int] == j as usize);
                } else {
                    assert(t.contains(j as usize));
                    let a = choose|a: int| 0 <= a < t.len() && t[a] == j as usize;
                    if a < p {
                        assert(u[a] == j as usize);
                    } else {
                        assert(u[a + 1] == j as usize);
                    }
                }
            }
        }
        i = i + 1;
    }
    let ghost full = out@;
    if limit < n {
        out.truncate(limit);
    }
    proof {
        let u = out@;
        assert forall|j: int, a: int|
            0 <= j < n && 0 <= a < u.len() && !u.contains(j as usize) implies #[trigger] ranks_before(
            keys@,
            u[a] as int,
            j,
        ) by {
            assert(full.contains(j as usize));
            let c = choose|c: int| 0 <= c < full.len() && full[c] == j as usize;
            if c < u.len() {
                assert(u[c] == j as usize);
            } else {
                assert(u[a] == full[a]);
                assert(ranks_before(keys@, full[a] as int, full[c] as int));
            }
        }
    }
    out
}

/// The scores of `deals` for the user, in millionths.
pub open spec fn scores_of(
    deals: Seq<Deal>,
    inputs: Seq<ScoreInputs>,
    prefs: UserPreferences,
    activity: UserActivity,
    weights: RankingWeights,
    now: int,
) -> Seq<u128> {
    Seq::new(
        deals.len(),
        |i: int| score_of(deals[i], prefs, activity, weights, inputs[i], now) as u128,
    )
}

/// Scores every deal for the user, ranks them from the highest score down
/// (deals with equal scores keep their input order) and keeps at most
/// `max_results` of them.
pub fn rank_offers(
    deals: &Vec<Deal>,
    inputs: &Vec<ScoreInputs>,
    user_prefs: &UserPreferences,
    user_activity: &UserActivity,
    weights: &RankingWeights,
    now: i64,
    max_results: Option<usize>,
) -> (r: OfferRankingResponse)
    requires
        inputs@.len() == deals@.len(),
        forall|i: int|
            0 <= i < inputs@.len() ==> (#[trigger] inputs@[i]).net_savings_score <= 1000
                && inputs@[i].reward_points_score <= 1000,
    ensures
        ({
            let keys = scores_of(deals@, inputs@, *user_prefs, *user_activity, *weights, now as int);
            let limit = match max_results {
                Some(m) => m as int,
                None => deals@.len() as int,
            };
            let ranked = r.ranked_offers@;
            &&& exists|order: Seq<usize>|
                {
                    &&& is_ranking(keys, order, limit)
                    &&& ranked.len() == order.len()
                    &&& forall|a: int|
                        0 <= a < order.len() ==> {
                            let d = deals@[#[trigger] order[a] as int];
                            &&& ranked[a].deal.same_as(&d)
                            &&& ranked[a].ranking_score == keys[order[a] as int]
                            &&& ranked[a].ranking_components == components_of(
                                d,
                                *user_prefs,
                                *user_activity,
                                inputs@[order[a] as int],
                                now as int,
                            )
                            &&& ranked[a].personalization_data == personalization_of(d, *user_prefs)
                            &&& ranked[a].stacking_opportunities@.len() == 0
                        }
                }
            &&& forall|a: int, b: int|
                0 <= a < b < ranked.len() ==> (#[trigger] ranked[a]).ranking_score >= (
                #[trigger] ranked[b]).ranking_score
            &&& r.total_count == ranked.len()
            &&& r.personalization_applied
            &&& r.ranking_timestamp == now
        }),
{
    let ghost keys = scores_of(deals@, inputs@, *user_prefs, *user_activity, *weights, now as int);
    let mut scores: Vec<u128> = Vec::new();
    let mut i: usize = 0;
    while i < deals.len()
        invariant
            i <= deals@.len(),
            inputs@.len() == deals@.len(),
            keys == scores_of(deals@, inputs@, *user_prefs, *user_activity, *weights, now as int),
            scores@ == keys.take(i as int),
        decreases deals@.len() - i,
    {
        let c = calculate_components(&deals[i], user_prefs, user_activity, inputs[i], now);
        scores.push(weighted_score_exec(&c, weights));
        i = i + 1;
        assert(scores@ =~= keys.take(i as int));
    }
    assert(scores@ =~= keys);
    let limit = match max_results {
        Some(m) => m,
        None => deals.len(),
    };
    let order = stable_order_desc(&scores, limit);
    let mut ranked: Vec<RankedOffer> = Vec::new();
    let mut a: usize = 0;
    while a < order.len()
        invariant
            a <= order@.len(),
            inputs@.len() == deals@.len(),
            forall|i: int|
                0 <= i < inputs@.len() ==> (#[trigger] inputs@[i]).net_savings_score <= 1000
                    && inputs@[i].reward_points_score <= 1000,
            scores@ == keys,
            keys == scores_of(deals@, inputs@, *user_prefs, *user_activity, *weights, now as int),
            is_ranking(keys, order@, limit as int),
            ranked@.len() == a,
            forall|b: int|
                0 <= b < a ==> {
                    let d = deals@[#[trigger] order@[b] as int];
                    &&& ranked@[b].deal.same_as(&d)
                    &&& ranked@[b].ranking_score == keys[order@[b] as int]
                    &&& ranked@[b].ranking_components == components_of(
                        d,
                        *user_prefs,
                        *user_activity,
                        inputs@[order@[b] as int],
                        now as int,
                    )
                    &&& ranked@[b].personalization_data == personalization_of(d, *user_prefs)
                    &&& ranked@[b].stacking_opportunities@.len() == 0
                },
        decreases order@.len() - a,
    {
        let k = order[a];
        let offer = RankedOffer::calculate_ranking(
            deals[k].duplicate(),
            user_prefs,
            user_activity,
            weights,
            inputs[k],
            now,
        );
        proof {
            let d = deals@[k as int];
            assert(offer.ranking_components == components_of(
                d,
                *user_prefs,
                *user_activity,
                inputs@[k as int],
                now as int,
            )) by {
                assert(offer.deal.same_as(&d));
                assert(category_text(offer.deal) == category_text(d));
            }
            assert(offer.personalization_data == personalization_of(d, *user_prefs));
        }
        ranked.push(offer);
        a = a + 1;
    }
    let total_count = ranked.len();
    proof {
        assert forall|a: int, b: int|
            0 <= a < b < ranked@.len() implies (#[trigger] ranked@[a]).ranking_score >= (
            #[trigger] ranked@[b]).ranking_score by {
            assert(ranks_before(keys, order@[a] as int, order@[b] as int));
        }
    }
    OfferRankingResponse {
        ranked_offers: ranked,
        total_count,
        personalization_applied: true,
        ranking_timestamp: now,
    }
}


/// The preferences assumed for a user without a profile: no favourites, a
/// spend range of 0 to 5000.00 INR, instant and wallet cashback, every
/// notification on.
pub fn create_default_preferences(user_id: &String) -> (r: UserPreferences)
    ensures
        r.user_id == *user_id,
        r.favorite_categories@.len() == 0,
        r.favorite_merchants@.len() == 0,
        r.typical_spend_range.min_amount == 0,
        r.typical_spend_range.max_amount == 500000,
        r.typical_spend_range.currency@ == "INR"@,
        r.preferred_cashback_types@ == seq![CashbackType::Instant, CashbackType::Wallet],
        r.notification_preferences == (NotificationPreferences {
            threshold_alerts: true,
            expiry_reminders: true,
            new_offer_alerts: true,
            price_drop_alerts: true,
        }),
{
    let mut cashback_types: Vec<CashbackType> = Vec::new();
    cashback_types.push(CashbackType::Instant);
    cashback_types.push(CashbackType::Wallet);
    assert(cashback_types@ =~= seq![CashbackType::Instant, CashbackType::Wallet]);
    UserPreferences {
        user_id: user_id.clone(),
        favorite_categories: Vec::new(),
        favorite_merchants: Vec::new(),
        typical_spend_range: SpendRange {
            min_amount: 0,
            max_amount: 500000,
            currency: String::from_str("INR"),
        },
        preferred_cashback_types: cashback_types,
        notification_preferences: NotificationPreferences {
            threshold_alerts: true,
            expiry_reminders: true,
            new_offer_alerts: true,
            price_drop_alerts: true,
        },
    }
}

/// The activity of a user with no history.
pub fn create_empty_activity(user_id: &String) -> (r: UserActivity)
    ensures
        r.user_id == *user_id,
        r.recent_purchases@.len() == 0,
        r.browsing_history@.len() == 0,
        r.saved_offers@.len() == 0,
        r.redeemed_offers@.len() == 0,
{
    UserActivity {
        user_id: user_id.clone(),
        recent_purchases: Vec::new(),
        browsing_history: Vec::new(),
        saved_offers: Vec::new(),
        redeemed_offers: Vec::new(),
    }
}

} // verus!
