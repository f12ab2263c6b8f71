use vstd::prelude::*;
use crate::ranking::{is_ranking, stable_order_desc};

verus! {

/// How a card pays its base reward.
#[derive(Debug, Clone, Copy, PartialEq, Eq, Structural)]
pub enum RewardType {
    Points,
    Cashback,
}

/// A reward rate, in basis points of the price, for one spending category.
#[derive(Debug, Clone)]
pub struct CategoryReward {
    pub category: String,
    pub rate_bp: u32,
}

/// A bank's discount at one merchant, in basis points of the price.
#[derive(Debug, Clone)]
pub struct BankOffer {
    pub merchant: String,
    pub discount_bp: u32,
}

/// A points threshold and the reward, in cents, for reaching it.
#[derive(Debug, Clone, Copy, PartialEq, Eq, Structural)]
pub struct Milestone {
    pub threshold: i64,
    pub reward_value: u64,
}

/// A payment card as the calculator reads it.
///
/// `base_reward_rate` is in basis points (5% is 500); `point_value_inr` is
/// the worth of one point in cents. The order of `milestone_config` matters:
/// the first entry above the balance is the next milestone.
#[derive(Debug, Clone)]
pub struct CardVault {
    pub id: String,
    pub bank_name: String,
    pub card_type: String,
    pub base_reward_rate: u32,
    pub reward_type: RewardType,
    pub point_value_inr: u64,
    pub category_rewards: Vec<CategoryReward>,
    pub bank_offers: Vec<BankOffer>,
    pub milestone_config: Vec<Milestone>,
    pub current_points: i64,
}

/// Progress toward the next milestone after a purchase.
#[derive(Debug, Clone, Copy, PartialEq, Eq, Structural)]
pub struct MilestoneProgress {
    pub current_points: i64,
    pub points_after_purchase: i128,
    pub next_milestone: i64,
    pub milestone_value: u64,
    pub points_to_milestone: i128,
}

/// What a card brings to one purchase; amounts in cents, rounded down.
#[derive(Debug)]
pub struct CardDealAnalysis {
    pub card_id: String,
    pub card_name: String,
    pub bank_name: String,
    pub base_reward: u128,
    pub category_bonus: u128,
    pub bank_offer_discount: u128,
    pub total_benefit: u128,
    pub effective_price: i128,
    pub total_savings: u128,
    /// In basis points of the original price.
    pub savings_percentage: u128,
    pub points_earned: u64,
    pub points_value_inr: u128,
    pub milestone_progress: Option<MilestoneProgress>,
    pub score: u128,
}

impl CardVault {
    /// Rates are at most 100%, a bank discount at most the whole price, and
    /// the offer list fits the counters.
    pub open spec fn wf(&self) -> bool {
        &&& self.base_reward_rate <= 10000
        &&& forall|i: int|
            0 <= i < self.category_rewards@.len() ==> (#[trigger] self.category_rewards@[i]).rate_bp
                <= 10000
        &&& forall|i: int|
            0 <= i < self.bank_offers@.len() ==> (#[trigger] self.bank_offers@[i]).discount_bp
                <= 10000
        &&& self.bank_offers@.len() <= u32::MAX
    }
}

/// `rate_bp` basis points of `price`, rounded down.
pub open spec fn portion(price: int, rate_bp: int) -> int {
    price * rate_bp / 10000
}

/// The rate of the first entry for exactly `category`, or 0.
pub open spec fn category_rate(rewards: Seq<CategoryReward>, category: Seq<char>) -> int
    decreases rewards.len(),
{
    if rewards.len() == 0 {
        0
    } else if rewards[0].category@ == category {
        rewards[0].rate_bp as int
    } else {
        category_rate(rewards.skip(1), category)
    }
}

/// The sum of the bank discounts on `price` whose merchant is exactly `merchant`.
pub open spec fn offer_total(offers: Seq<BankOffer>, merchant: Seq<char>, price: int) -> int
    decreases offers.len(),
{
    if offers.len() == 0 {
        0
    } else {
        offer_total(offers.drop_last(), merchant, price) + if offers.last().merchant@ == merchant {
            portion(price, offers.last().discount_bp as int)
        } else {
            0
        }
    }
}

/// What `str::to_lowercase` returns for `s`.
pub uninterp spec fn lower_of(s: Seq<char>) -> Seq<char>;

/// The sum of the bank discounts on `price` whose merchant matches
/// `merchant` ignoring case.
pub open spec fn offer_total_ignoring_case(offers: Seq<BankOffer>, merchant: Seq<char>, price: int) -> int
    decreases offers.len(),
{
    if offers.len() == 0 {
        0
    } else {
        offer_total_ignoring_case(offers.drop_last(), merchant, price) + if lower_of(
            offers.last().merchant@,
        ) == lower_of(merchant) {
            portion(price, offers.last().discount_bp as int)
        } else {
            0
        }
    }
}

/// Relies on `str::to_lowercase`: the result depends on the characters alone.
#[verifier::external_body]
fn lowercase(s: &str) -> (r: String)
    ensures
        r@ == lower_of(s@),
{
    s.to_lowercase()
}

fn portion_exec(price: u64, rate_bp: u32) -> (r: u128)
    requires
        rate_bp <= 10000,
    ensures
        r == portion(price as int, rate_bp as int),
        r <= price,
{
    assert(price * rate_bp <= price * 10000) by (nonlinear_arith)
        requires
            rate_bp <= 10000,
    ;
    assert(price * rate_bp / 10000 <= price) by (nonlinear_arith)
        requires
            rate_bp <= 10000,
    ;
    (price as u128) * (rate_bp as u128) / 10000
}

/// The category bonus rate for `category`: exact-match lookup, 0 if absent.
pub fn category_rate_of(rewards: &Vec<CategoryReward>, category: &String) -> (r: u32)
    ensures
        r == category_rate(rewards@, category@),
{
    let mut i: usize = 0;
    assert(rewards@.skip(0) =~= rewards@);
    while i < rewards.len()
        invariant
            i <= rewards@.len(),
            category_rate(rewards@, category@) == category_rate(rewards@.skip(i as int), category@),
        decreases rewards@.len() - i,
    {
        if rewards[i].category == *category {
            return rewards[i].rate_bp;
        }
        assert(rewards@.skip(i as int).skip(1) =~= rewards@.skip(i + 1));
        i = i + 1;
    }
    0
}

/// The bank discounts on `price` whose merchant is exactly `merchant`;
/// callers that match ignoring case pass both sides lowercased.
pub fn bank_offer_discount_exact(offers: &Vec<BankOffer>, merchant: &String, price: u64) -> (r: u128)
    requires
        forall|i: int| 0 <= i < offers@.len() ==> (#[trigger] offers@[i]).discount_bp <= 10000,
        offers@.len() <= u32::MAX,
    ensures
        r == offer_total(offers@, merchant@, price as int),
        r <= offers@.len() * price,
{
    let mut total: u128 = 0;
    let mut i: usize = 0;
    while i < offers.len()
        invariant
            i <= offers@.len(),
            offers@.len() <= u32::MAX,
            forall|k: int| 0 <= k < offers@.len() ==> (#[trigger] offers@[k]).discount_bp <= 10000,
            total == offer_total(offers@.take(i as int), merchant@, price as int),
            total <= i * price,
        decreases offers@.len() - i,
    {
        let o = &offers[i];
        let part = portion_exec(price, o.discount_bp);
        proof {
            assert(offers@.take(i + 1).drop_last() =~= offers@.take(i as int));
            assert(i * price + price == (i + 1) * price) by (nonlinear_arith);
            assert((i + 1) * price <= u32::MAX as int * u64::MAX as int) by (nonlinear_arith)
                requires
                    i + 1 <= u32::MAX,
                    price <= u64::MAX,
            ;
        }
        if o.merchant == *merchant {
            total = total + part;
        }
        i = i + 1;
    }
    assert(offers@.take(i as int) =~= offers@);
    total
}

proof fn lemma_offer_total_folded(
    offers: Seq<BankOffer>,
    folded: Seq<BankOffer>,
    merchant: Seq<char>,
    price: int,
)
    requires
        offers.len() == folded.len(),
        forall|i: int|
            0 <= i < offers.len() ==> (#[trigger] folded[i]).merchant@ == lower_of(offers[i].merchant@)
                && folded[i].discount_bp == offers[i].discount_bp,
    ensures
        offer_total(folded, lower_of(merchant), price) == offer_total_ignoring_case(
            offers,
            merchant,
            price,
        ),
    decreases offers.len(),
{
    if offers.len() > 0 {
        let n = offers.len() - 1;
        assert(folded[n as int].merchant@ == lower_of(offers[n as int].merchant@));
        lemma_offer_total_folded(offers.drop_last(), folded.drop_last(), merchant, price);
    }
}

/// The bank discounts on `price` whose merchant matches `merchant_name`
/// ignoring case.
pub fn bank_offer_discount(offers: &Vec<BankOffer>, merchant_name: &String, price: u64) -> (r: u128)
    requires
        forall|i: int| 0 <= i < offers@.len() ==> (#[trigger] offers@[i]).discount_bp <= 10000,
        offers@.len() <= u32::MAX,
    ensures
        r == offer_total_ignoring_case(offers@, merchant_name@, price as int),
        r <= offers@.len() * price,
{
    let wanted = lowercase(merchant_name.as_str());
    let mut folded: Vec<BankOffer> = Vec::new();
    let mut i: usize = 0;
    while i < offers.len()
        invariant
            i <= offers@.len(),
            folded@.len() == i,
            forall|k: int|
                0 <= k < i ==> (#[trigger] folded@[k]).merchant@ == lower_of(offers@[k].merchant@)
                    && folded@[k].discount_bp == offers@[k].discount_bp,
        decreases offers@.len() - i,
    {
        let o = &offers[i];
        folded.push(BankOffer { merchant: lowercase(o.merchant.as_str()), discount_bp: o.discount_bp });
        i = i + 1;
    }
    proof {
        lemma_offer_total_folded(offers@, folded@, merchant_name@, price as int);
    }
    bank_offer_discount_exact(&folded, &wanted, price)
}

/// The first milestone, in the order given, whose threshold is above
/// `points_after`.
pub open spec fn is_next_milestone(ms: Seq<Milestone>, points_after: int, idx: int) -> bool {
    &&& 0 <= idx < ms.len()
    &&& ms[idx].threshold > points_after
    &&& forall|j: int| 0 <= j < idx ==> (#[trigger] ms[j]).threshold <= points_after
}

pub open spec fn progress_for(current: i64, points_after: int, m: Milestone) -> MilestoneProgress {
    MilestoneProgress {
        current_points: current,
        points_after_purchase: points_after as i128,
        next_milestone: m.threshold,
        milestone_value: m.reward_value,
        points_to_milestone: (m.threshold - points_after) as i128,
    }
}

/// Progress toward the first milestone, in the card's order, above the
/// balance after earning `points_earned`; none when every threshold has
/// been reached.
pub fn calculate_milestone_progress(card: &CardVault, points_earned: u64) -> (r: Option<
    MilestoneProgress,
>)
    ensures
        milestone_matches(*card, points_earned as int, r),
{
    let after: i128 = card.current_points as i128 + points_earned as i128;
    let ms = &card.milestone_config;
    let mut i: usize = 0;
    while i < ms.len()
        invariant
            i <= ms@.len(),
            after == card.current_points + points_earned,
            ms == &card.milestone_config,
            forall|j: int| 0 <= j < i ==> (#[trigger] ms@[j]).threshold <= after,
        decreases ms@.len() - i,
    {
        let m = ms[i];
        if (m.threshold as i128) > after {
            let p = MilestoneProgress {
                current_points: card.current_points,
                points_after_purchase: after,
                next_milestone: m.threshold,
                milestone_value: m.reward_value,
                points_to_milestone: m.threshold as i128 - after,
            };
            assert(is_next_milestone(ms@, after as int, i as int));
            return Some(p);
        }
        i = i + 1;
    }
    None
}


/// `r` is the milestone progress for `card` after earning `points_earned`.
pub open spec fn milestone_matches(card: CardVault, points_earned: int, r: Option<MilestoneProgress>) -> bool {
    let ms = card.milestone_config@;
    let after = card.current_points + points_earned;
    match r {
        Some(p) => exists|idx: int|
            is_next_milestone(ms, after, idx) && p == progress_for(card.current_points, after, ms[idx]),
        None => forall|j: int| 0 <= j < ms.len() ==> (#[trigger] ms[j]).threshold <= after,
    }
}

/// One point per whole currency unit of base reward, for points cards.
pub open spec fn points_for(card: CardVault, price: int) -> int {
    if card.reward_type == RewardType::Points {
        price * card.base_reward_rate / 1000000
    } else {
        0
    }
}

/// Twice a tenth of the milestone's value when it is under 1000 points away.
pub open spec fn milestone_bonus(p: Option<MilestoneProgress>) -> int {
    match p {
        Some(m) => if m.points_to_milestone < 1000 { m.milestone_value as int / 5 } else { 0 },
        None => 0,
    }
}

/// `r` is the analysis of `card` for a purchase of `price` cents at
/// `merchant` in `category`, with `deal_discount` cents already taken off.
pub open spec fn analyzes(
    card: CardVault,
    merchant: Seq<char>,
    category: Seq<char>,
    price: int,
    deal_discount: int,
    r: CardDealAnalysis,
) -> bool {
    let base = portion(price, card.base_reward_rate as int);
    let bonus = portion(price, category_rate(card.category_rewards@, category));
    let bank = offer_total_ignoring_case(card.bank_offers@, merchant, price);
    let benefit = base + bonus + bank;
    let savings = deal_discount + benefit;
    let points = points_for(card, price);
    let points_value = points * card.point_value_inr;
    &&& r.card_id == card.id
    &&& r.bank_name == card.bank_name
    &&& r.card_name@ == card.bank_name@ + " "@ + card.card_type@
    &&& r.base_reward == base
    &&& r.category_bonus == bonus
    &&& r.bank_offer_discount == bank
    &&& r.total_benefit == benefit
    &&& r.effective_price == price - deal_discount - benefit
    &&& r.total_savings == savings
    &&& r.savings_percentage == savings * 10000 / price
    &&& r.points_earned == points
    &&& r.points_value_inr == points_value
    &&& milestone_matches(card, points, r.milestone_progress)
    &&& r.score == savings + points_value / 2 + milestone_bonus(r.milestone_progress)
}

/// The benefit `card` brings to a purchase of `original_price` cents at
/// `merchant_name` in `category`, on top of `deal_discount` cents.
pub fn calculate_card_benefit(
    card: &CardVault,
    merchant_name: &String,
    category: &String,
    original_price: u64,
    deal_discount: u64,
) -> (r: CardDealAnalysis)
    requires
        card.wf(),
        original_price > 0,
    ensures
        analyzes(*card, merchant_name@, category@, original_price as int, deal_discount as int, r),
{
    let price = original_price;
    let base_reward = portion_exec(price, card.base_reward_rate);
    let rate = category_rate_of(&card.category_rewards, category);
    proof {
        lemma_category_rate_bounded(card.category_rewards@, category@);
    }
    let category_bonus = portion_exec(price, rate);
    let bank = bank_offer_discount(&card.bank_offers, merchant_name, price);
    proof {
        assert(card.bank_offers@.len() * price <= u32::MAX as int * u64::MAX as int) by (
        nonlinear_arith)
            requires
                card.bank_offers@.len() <= u32::MAX,
                price <= u64::MAX,
        ;
    }
    let total_benefit = base_reward + category_bonus + bank;
    let effective_price = price as i128 - deal_discount as i128 - total_benefit as i128;
    let total_savings = deal_discount as u128 + total_benefit;
    let savings_percentage = total_savings * 10000 / (price as u128);
    let points_earned: u64 = if card.reward_type == RewardType::Points {
        assert(price * card.base_reward_rate <= price * 10000) by (nonlinear_arith)
            requires
                card.base_reward_rate <= 10000,
        ;
        ((price as u128) * (card.base_reward_rate as u128) / 1000000) as u64
    } else {
        0
    };
    proof {
        assert(points_earned * card.point_value_inr <= u64::MAX as int * u64::MAX as int) by (
        nonlinear_arith)
            requires
                points_earned <= u64::MAX,
                card.point_value_inr <= u64::MAX,
        ;
    }
    let points_value_inr = (points_earned as u128) * (card.point_value_inr as u128);
    let milestone_progress = calculate_milestone_progress(card, points_earned);
    let bonus: u128 = match milestone_progress {
        Some(m) => if m.points_to_milestone < 1000 {
            (m.milestone_value / 5) as u128
        } else {
            0
        },
        None => 0,
    };
    let score = total_savings + points_value_inr / 2 + bonus;
    let card_name = card.bank_name.clone().concat(" ").concat(card.card_type.as_str());
    CardDealAnalysis {
        card_id: card.id.clone(),
        card_name,
        bank_name: card.bank_name.clone(),
        base_reward,
        category_bonus,
        bank_offer_discount: bank,
        total_benefit,
        effective_price,
        total_savings,
        savings_percentage,
        points_earned,
        points_value_inr,
        milestone_progress,
        score,
    }
}

proof fn lemma_category_rate_bounded(rewards: Seq<CategoryReward>, category: Seq<char>)
    requires
        forall|i: int| 0 <= i < rewards.len() ==> (#[trigger] rewards[i]).rate_bp <= 10000,
    ensures
        category_rate(rewards, category) <= 10000,
    decreases rewards.len(),
{
    if rewards.len() > 0 && rewards[0].category@ != category {
        assert forall|i: int| 0 <= i < rewards.skip(1).len() implies (
        #[trigger] rewards.skip(1)[i]).rate_bp <= 10000 by {
            assert(rewards.skip(1)[i] == rewards[i + 1]);
        }
        lemma_category_rate_bounded(rewards.skip(1), category);
    }
}


/// The score of each card's analysis for one purchase.
pub open spec fn card_scores(
    cards: Seq<CardVault>,
    merchant: Seq<char>,
    category: Seq<char>,
    price: int,
    deal_discount: int,
) -> Seq<u128> {
    Seq::new(
        cards.len(),
        |i: int|
            (portion(price, cards[i].base_reward_rate as int) + portion(
                price,
                category_rate(cards[i].category_rewards@, category),
            ) + offer_total_ignoring_case(cards[i].bank_offers@, merchant, price) + deal_discount
                + (points_for(cards[i], price) * cards[i].point_value_inr) / 2 + milestone_bonus(
                next_progress(cards[i], points_for(cards[i], price)),
            )) as u128,
    )
}

/// The milestone progress that `calculate_milestone_progress` reports.
pub open spec fn next_progress(card: CardVault, points_earned: int) -> Option<MilestoneProgress> {
    let ms = card.milestone_config@;
    let after = card.current_points + points_earned;
    if exists|idx: int| is_next_milestone(ms, after, idx) {
        let idx = choose|idx: int| is_next_milestone(ms, after, idx);
        Some(progress_for(card.current_points, after, ms[idx]))
    } else {
        None
    }
}

proof fn lemma_next_milestone_unique(ms: Seq<Milestone>, after: int, i: int, j: int)
    requires
        is_next_milestone(ms, after, i),
        is_next_milestone(ms, after, j),
    ensures
        i == j,
{
    if i < j {
        assert(ms[i].threshold <= after);
    } else if j < i {
        assert(ms[j].threshold <= after);
    }
}

proof fn lemma_milestone_is_next_progress(card: CardVault, points: int, r: Option<MilestoneProgress>)
    requires
        milestone_matches(card, points, r),
    ensures
        r == next_progress(card, points),
{
    let ms = card.milestone_config@;
    let after = card.current_points + points;
    match r {
        Some(p) => {
            let idx = choose|idx: int|
                is_next_milestone(ms, after, idx) && p == progress_for(
                    card.current_points,
                    after,
                    ms[idx],
                );
            let c = choose|k: int| is_next_milestone(ms, after, k);
            lemma_next_milestone_unique(ms, after, idx, c);
        },
        None => {
            if exists|idx: int| is_next_milestone(ms, after, idx) {
                let idx = choose|idx: int| is_next_milestone(ms, after, idx);
                assert(ms[idx].threshold <= after);
            }
        },
    }
}

/// Every card analysed for one purchase, best score first; cards with equal
/// scores keep their order.
pub fn rank_cards(
    cards: &Vec<CardVault>,
    merchant_name: &String,
    category: &String,
    original_price: u64,
    deal_discount: u64,
) -> (r: Vec<CardDealAnalysis>)
    requires
        forall|i: int| 0 <= i < cards@.len() ==> (#[trigger] cards@[i]).wf(),
        original_price > 0,
    ensures
        exists|order: Seq<usize>|
            {
                &&& is_ranking(
                    card_scores(
                        cards@,
                        merchant_name@,
                        category@,
                        original_price as int,
                        deal_discount as int,
                    ),
                    order,
                    cards@.len() as int,
                )
                &&& r@.len() == order.len()
                &&& forall|a: int|
                    0 <= a < order.len() ==> analyzes(
                        cards@[#[trigger] order[a] as int],
                        merchant_name@,
                        category@,
                        original_price as int,
                        deal_discount as int,
                        r@[a],
                    )
            },
        forall|a: int, b: int| 0 <= a < b < r@.len() ==> (#[trigger] r@[a]).score >= (#[trigger] r@[b]).score,
{
    let ghost keys = card_scores(
        cards@,
        merchant_name@,
        category@,
        original_price as int,
        deal_discount as int,
    );
    let mut scores: Vec<u128> = Vec::new();
    let mut i: usize = 0;
    while i < cards.len()
        invariant
            i <= cards@.len(),
            original_price > 0,
            forall|k: int| 0 <= k < cards@.len() ==> (#[trigger] cards@[k]).wf(),
            keys == card_scores(
                cards@,
                merchant_name@,
                category@,
                original_price as int,
                deal_discount as int,
            ),
            scores@ == keys.take(i as int),
        decreases cards@.len() - i,
    {
        let a = calculate_card_benefit(&cards[i], merchant_name, category, original_price, deal_discount);
        proof {
            lemma_milestone_is_next_progress(
                cards@[i as int],
                a.points_earned as int,
                a.milestone_progress,
            );
        }
        scores.push(a.score);
        i = i + 1;
        assert(scores@ =~= keys.take(i as int));
    }
    assert(scores@ =~= keys);
    let order = stable_order_desc(&scores, cards.len());
    let mut out: Vec<CardDealAnalysis> = Vec::new();
    let mut a: usize = 0;
    while a < order.len()
        invariant
            a <= order@.len(),
            original_price > 0,
            forall|k: int| 0 <= k < cards@.len() ==> (#[trigger] cards@[k]).wf(),
            scores@ == keys,
            keys == card_scores(
                cards@,
                merchant_name@,
                category@,
                original_price as int,
                deal_discount as int,
            ),
            is_ranking(keys, order@, cards@.len() as int),
            out@.len() == a,
            forall|b: int|
                0 <= b < a ==> analyzes(
                    cards@[#[trigger] order@[b] as int],
                    merchant_name@,
                    category@,
                    original_price as int,
                    deal_discount as int,
                    out@[b],
                ),
            forall|b: int| 0 <= b < a ==> (#[trigger] out@[b]).score == keys[order@[b] as int],
        decreases order@.len() - a,
    {
        let k = order[a];
        let analysis = calculate_card_benefit(&cards[k], merchant_name, category, original_price, deal_discount);
        proof {
            lemma_milestone_is_next_progress(
                cards@[k as int],
                analysis.points_earned as int,
                analysis.milestone_progress,
            );
        }
        out.push(analysis);
        a = a + 1;
    }
    proof {
        assert forall|a: int, b: int| 0 <= a < b < out@.len() implies (#[trigger] out@[a]).score >= (
        #[trigger] out@[b]).score by {
            assert(crate::ranking::ranks_before(keys, order@[a] as int, order@[b] as int));
        }
    }
    out
}

} // verus!
