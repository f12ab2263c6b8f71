use vstd::prelude::*;
use vstd::string::StrSliceExecFns;
use crate::exact::{pow_base, round_exact, Exact};
use crate::money::round_half_even;

verus! {

/// The kind of discount instrument a deal is.
#[derive(Debug, Clone, Copy, PartialEq, Eq, Hash, Structural)]
pub enum DealType {
    Coupon,
    Cashback,
    Discount,
    CardOffer,
    WalletOffer,
    Membership,
    Referral,
    Bundle,
}

/// How a deal's `value` is read.
#[derive(Debug, Clone, Copy, PartialEq, Eq, Hash, Structural)]
pub enum ValueType {
    /// `value` is in basis points of the running price (10% is 1000).
    Percentage,
    /// `value` is an amount in cents taken off once.
    Fixed,
}

/// One discount instrument, as offered at checkout.
///
/// Amounts (`min_purchase`, `max_discount`, a fixed `value`) are in cents;
/// `confidence` is in thousandths; lower `priority` applies first.
#[derive(Debug, Clone)]
pub struct Deal {
    pub id: String,
    pub title: String,
    pub description: String,
    pub deal_type: DealType,
    pub value: u64,
    pub value_type: ValueType,
    pub code: Option<String>,
    pub min_purchase: Option<u64>,
    pub max_discount: Option<u64>,
    pub platform: String,
    pub confidence: u32,
    pub stackable: bool,
    pub terms: Vec<String>,
    pub priority: i32,
}

impl Deal {
    /// A percentage is at most 100% and a confidence at most 1.
    pub open spec fn wf(&self) -> bool {
        &&& self.confidence <= 1000
        &&& (self.value_type == ValueType::Percentage ==> self.value <= 10000)
    }

    /// `self` holds the same values as `other`.
    pub open spec fn same_as(&self, other: &Deal) -> bool {
        &&& self.id == other.id
        &&& self.title == other.title
        &&& self.description == other.description
        &&& self.deal_type == other.deal_type
        &&& self.value == other.value
        &&& self.value_type == other.value_type
        &&& self.code == other.code
        &&& self.min_purchase == other.min_purchase
        &&& self.max_discount == other.max_discount
        &&& self.platform == other.platform
        &&& self.confidence == other.confidence
        &&& self.stackable == other.stackable
        &&& self.terms@ == other.terms@
        &&& self.priority == other.priority
    }

    /// A field-by-field copy.
    pub fn duplicate(&self) -> (r: Deal)
        ensures
            r.same_as(self),
    {
        let code = match &self.code {
            Some(c) => Some(c.clone()),
            None => None,
        };
        let mut terms: Vec<String> = Vec::new();
        let mut i: usize = 0;
        while i < self.terms.len()
            invariant
                i <= self.terms.len(),
                terms@ == self.terms@.take(i as int),
            decreases self.terms.len() - i,
        {
            terms.push(self.terms[i].clone());
            i = i + 1;
            assert(terms@ =~= self.terms@.take(i as int));
        }
        assert(terms@ =~= self.terms@);
        Deal {
            id: self.id.clone(),
            title: self.title.clone(),
            description: self.description.clone(),
            deal_type: self.deal_type,
            value: self.value,
            value_type: self.value_type,
            code,
            min_purchase: self.min_purchase,
            max_discount: self.max_discount,
            platform: self.platform.clone(),
            confidence: self.confidence,
            stackable: self.stackable,
            terms,
            priority: self.priority,
        }
    }
}

pub open spec fn all_wf(deals: Seq<Deal>) -> bool {
    forall|i: int| 0 <= i < deals.len() ==> (#[trigger] deals[i]).wf()
}

/// Lexicographic order on identifiers, by code point.
pub open spec fn id_lt(a: Seq<char>, b: Seq<char>) -> bool
    decreases a.len(),
{
    if b.len() == 0 {
        false
    } else if a.len() == 0 {
        true
    } else if (a[0] as u32) < (b[0] as u32) {
        true
    } else if a[0] == b[0] {
        id_lt(a.skip(1), b.skip(1))
    } else {
        false
    }
}

/// Deal `i` is applied before deal `j`: ascending priority, then ascending
/// id, then position in the input.
pub open spec fn applies_before(deals: Seq<Deal>, i: int, j: int) -> bool {
    let a = deals[i];
    let b = deals[j];
    ||| a.priority < b.priority
    ||| (a.priority == b.priority && id_lt(a.id@, b.id@))
    ||| (a.priority == b.priority && a.id@ == b.id@ && i < j)
}

/// Where `x` goes in the already ordered `t`: after every entry applied before it.
pub open spec fn insert_pos(deals: Seq<Deal>, t: Seq<usize>, x: usize) -> nat
    decreases t.len(),
{
    if t.len() == 0 {
        0
    } else if applies_before(deals, t[0] as int, x as int) {
        1 + insert_pos(deals, t.skip(1), x)
    } else {
        0
    }
}

pub open spec fn insert_ordered(deals: Seq<Deal>, t: Seq<usize>, x: usize) -> Seq<usize> {
    let p = insert_pos(deals, t, x) as int;
    t.take(p).push(x) + t.skip(p)
}

/// The order in which the deals at positions `s` are applied.
pub open spec fn application_order(deals: Seq<Deal>, s: Seq<usize>) -> Seq<usize>
    decreases s.len(),
{
    if s.len() == 0 {
        Seq::empty()
    } else {
        insert_ordered(deals, application_order(deals, s.drop_last()), s.last())
    }
}

fn id_precedes(a: &String, b: &String) -> (r: bool)
    ensures
        r == id_lt(a@, b@),
{
    let la = a.as_str().unicode_len();
    let lb = b.as_str().unicode_len();
    let mut i: usize = 0;
    assert(a@.skip(0) =~= a@);
    assert(b@.skip(0) =~= b@);
    while i < la && i < lb
        invariant
            la == a@.len(),
            lb == b@.len(),
            i <= la,
            i <= lb,
            id_lt(a@, b@) == id_lt(a@.skip(i as int), b@.skip(i as int)),
        decreases la - i,
    {
        let ca = a.as_str().get_char(i);
        let cb = b.as_str().get_char(i);
        if (ca as u32) < (cb as u32) {
            return true;
        }
        if ca != cb {
            return false;
        }
        assert(a@.skip(i as int).skip(1) =~= a@.skip(i + 1));
        assert(b@.skip(i as int).skip(1) =~= b@.skip(i + 1));
        i = i + 1;
    }
    i < lb
}

fn deal_applies_before(deals: &Vec<Deal>, i: usize, j: usize) -> (r: bool)
    requires
        i < deals@.len(),
        j < deals@.len(),
    ensures
        r == applies_before(deals@, i as int, j as int),
{
    let a = &deals[i];
    let b = &deals[j];
    if a.priority != b.priority {
        return a.priority < b.priority;
    }
    if id_precedes(&a.id, &b.id) {
        return true;
    }
    a.id == b.id && i < j
}

/// Orders the deals at positions `s` for application.
fn order_for_application(deals: &Vec<Deal>, s: &Vec<usize>) -> (r: Vec<usize>)
    requires
        forall|k: int| 0 <= k < s@.len() ==> (#[trigger] s@[k]) < deals@.len(),
    ensures
        r@ == application_order(deals@, s@),
        forall|m: int| 0 <= m < r@.len() ==> (#[trigger] r@[m]) < deals@.len(),
{
    let mut out: Vec<usize> = Vec::new();
    let mut k: usize = 0;
    while k < s.len()
        invariant
            k <= s@.len(),
            forall|m: int| 0 <= m < s@.len() ==> (#[trigger] s@[m]) < deals@.len(),
            forall|m: int| 0 <= m < out@.len() ==> (#[trigger] out@[m]) < deals@.len(),
            out@ == application_order(deals@, s@.take(k as int)),
        decreases s@.len() - k,
    {
        let x = s[k];
        let ghost t = out@;
        let mut p: usize = 0;
        assert(t.skip(0) =~= t);
        while p < out.len() && deal_applies_before(deals, out[p], x)
            invariant
                out@ == t,
                p <= t.len(),
                x < deals@.len(),
                forall|m: int| 0 <= m < t.len() ==> (#[trigger] t[m]) < deals@.len(),
                insert_pos(deals@, t, x) == p + insert_pos(deals@, t.skip(p as int), x),
            decreases t.len() - p,
        {
            assert(t.skip(p as int).skip(1) =~= t.skip(p + 1));
            p = p + 1;
        }
        out.insert(p, x);
        proof {
            let sk = s@.take(k + 1);
            assert(sk.drop_last() =~= s@.take(k as int));
            assert(out@ =~= t.take(p as int).push(x) + t.skip(p as int));
        }
        k = k + 1;
    }
    assert(s@.take(k as int) =~= s@);
    out
}


/// Why a deal was left out of a stack, or what was adjusted.
#[derive(Debug, Clone)]
pub enum StackWarning {
    MinimumPurchaseNotMet { deal_id: String },
    MerchantMismatch { deal_id: String },
    /// A deal whose id an earlier deal of the input already has.
    DuplicateDeal { deal_id: String },
    /// An eligible deal that the chosen stack leaves out, because of the
    /// one-coupon or the sole-member rule.
    NotCombined { deal_id: String },
    PriceClampedToZero,
}

/// Applying the deals at positions `order`, in that order, to `base` cents,
/// exactly: the price scaled by `pow_base(order.len())`, so that each
/// percentage discount divides evenly, and the lowest confidence seen (1000,
/// full confidence, when no deal is applied). A percentage discount is taken
/// on the running price and capped by `max_discount`; a fixed one is its
/// value. Nothing is rounded or clamped here.
pub open spec fn run(deals: Seq<Deal>, order: Seq<usize>, base: int) -> (int, int)
    decreases order.len(),
{
    if order.len() == 0 {
        (base, 1000)
    } else {
        let prev = run(deals, order.drop_last(), base);
        let d = deals[order.last() as int];
        let scale = pow_base(order.len());
        let disc = match d.value_type {
            ValueType::Percentage => {
                let raw = prev.0 * d.value;
                match d.max_discount {
                    Some(m) => if raw > m * scale { m * scale } else { raw },
                    None => raw,
                }
            },
            ValueType::Fixed => d.value * scale,
        };
        (
            prev.0 * 10000 - disc,
            if (d.confidence as int) < prev.1 { d.confidence as int } else { prev.1 },
        )
    }
}

pub open spec fn clamp_at_zero(x: int) -> int {
    if x < 0 {
        0
    } else {
        x
    }
}

/// The final price in cents: the exact price clamped at zero, then rounded
/// half to even, once.
pub open spec fn final_cents(deals: Seq<Deal>, order: Seq<usize>, base: int) -> int {
    round_half_even(clamp_at_zero(run(deals, order, base).0), pow_base(order.len()))
}

/// The exact price went below zero and was clamped.
pub open spec fn clamped(deals: Seq<Deal>, order: Seq<usize>, base: int) -> bool {
    run(deals, order, base).0 < 0
}

/// What rules `d` out of a stack at this checkout, if anything.
pub open spec fn rejection(d: Deal, base: int, merchant: Seq<char>) -> Option<StackWarning> {
    if d.min_purchase.is_some() && base < d.min_purchase.unwrap() {
        Some(StackWarning::MinimumPurchaseNotMet { deal_id: d.id })
    } else if d.deal_type == DealType::CardOffer && d.platform@ != merchant {
        Some(StackWarning::MerchantMismatch { deal_id: d.id })
    } else {
        None
    }
}

/// Some deal before position `i` has the id of deal `i`.
pub open spec fn has_id_before(deals: Seq<Deal>, i: int) -> bool {
    exists|j: int| 0 <= j < i && (#[trigger] deals[j]).id@ == deals[i].id@
}

/// What rules the deal at position `i` out of the optimizer's choice: a
/// repeated id, else `rejection`.
pub open spec fn rejection_at(deals: Seq<Deal>, i: int, base: int, merchant: Seq<char>) -> Option<
    StackWarning,
> {
    if has_id_before(deals, i) {
        Some(StackWarning::DuplicateDeal { deal_id: deals[i].id })
    } else {
        rejection(deals[i], base, merchant)
    }
}

pub open spec fn eligible_at(deals: Seq<Deal>, i: int, base: int, merchant: Seq<char>) -> bool {
    rejection_at(deals, i, base, merchant).is_none()
}

/// The warnings for the ineligible deals among the first `n`, in input order.
pub open spec fn rejections(deals: Seq<Deal>, base: int, merchant: Seq<char>, n: int) -> Seq<
    StackWarning,
>
    decreases n,
{
    if n <= 0 {
        Seq::empty()
    } else {
        let prev = rejections(deals, base, merchant, n - 1);
        match rejection_at(deals, n - 1, base, merchant) {
            Some(w) => prev.push(w),
            None => prev,
        }
    }
}

/// The warnings for the eligible deals among the first `n` that `chosen`
/// leaves out, in input order.
pub open spec fn exclusions(
    deals: Seq<Deal>,
    base: int,
    merchant: Seq<char>,
    chosen: Seq<usize>,
    n: int,
) -> Seq<StackWarning>
    decreases n,
{
    if n <= 0 {
        Seq::empty()
    } else {
        let prev = exclusions(deals, base, merchant, chosen, n - 1);
        if eligible_at(deals, n - 1, base, merchant) && !chosen.contains((n - 1) as usize) {
            prev.push(StackWarning::NotCombined { deal_id: deals[n - 1].id })
        } else {
            prev
        }
    }
}

/// The slot a deal takes: 0 shared, 1 the coupon slot, 2 the exclusive slot.
pub open spec fn slot(d: Deal) -> int {
    if !d.stackable {
        2
    } else if d.deal_type == DealType::Coupon {
        1
    } else {
        0
    }
}

/// Positions, among the first `n`, of the eligible deals of slot `class`.
pub open spec fn class_indices(
    deals: Seq<Deal>,
    base: int,
    merchant: Seq<char>,
    class: int,
    n: int,
) -> Seq<usize>
    decreases n,
{
    if n <= 0 {
        Seq::empty()
    } else {
        let prev = class_indices(deals, base, merchant, class, n - 1);
        if eligible_at(deals, n - 1, base, merchant) && slot(deals[n - 1]) == class {
            prev.push((n - 1) as usize)
        } else {
            prev
        }
    }
}

pub open spec fn shared_of(deals: Seq<Deal>, base: int, merchant: Seq<char>) -> Seq<usize> {
    class_indices(deals, base, merchant, 0, deals.len() as int)
}

pub open spec fn coupons_of(deals: Seq<Deal>, base: int, merchant: Seq<char>) -> Seq<usize> {
    class_indices(deals, base, merchant, 1, deals.len() as int)
}

pub open spec fn exclusives_of(deals: Seq<Deal>, base: int, merchant: Seq<char>) -> Seq<usize> {
    class_indices(deals, base, merchant, 2, deals.len() as int)
}

pub open spec fn num_candidates(deals: Seq<Deal>, base: int, merchant: Seq<char>) -> int {
    (1 + coupons_of(deals, base, merchant).len() + exclusives_of(deals, base, merchant).len()) as int
}

/// Candidate stack `k`: all shared deals (k = 0), all shared deals and the
/// k-th coupon, or one exclusive deal alone.
pub open spec fn candidate(deals: Seq<Deal>, base: int, merchant: Seq<char>, k: int) -> Seq<usize> {
    let shared = shared_of(deals, base, merchant);
    let coupons = coupons_of(deals, base, merchant);
    let exclusives = exclusives_of(deals, base, merchant);
    if k == 0 {
        shared
    } else if k <= coupons.len() {
        shared.push(coupons[k - 1])
    } else {
        seq![exclusives[k - 1 - coupons.len()]]
    }
}

/// The exact price and confidence of candidate `k`.
pub open spec fn outcome(deals: Seq<Deal>, base: int, merchant: Seq<char>, k: int) -> (int, int) {
    run(deals, application_order(deals, candidate(deals, base, merchant, k)), base)
}

/// Candidate `k`'s clamped exact price, brought to the common scale
/// `pow_base(deals.len())`.
pub open spec fn price_key(deals: Seq<Deal>, base: int, merchant: Seq<char>, k: int) -> int {
    clamp_at_zero(outcome(deals, base, merchant, k).0) * pow_base(
        (deals.len() - candidate(deals, base, merchant, k).len()) as nat,
    )
}

/// Candidate `k` is strictly preferred to candidate `j`: more savings (a
/// lower clamped final price), then higher confidence, then fewer deals.
pub open spec fn beats(deals: Seq<Deal>, base: int, merchant: Seq<char>, k: int, j: int) -> bool {
    let a = price_key(deals, base, merchant, k);
    let b = price_key(deals, base, merchant, j);
    let ca = outcome(deals, base, merchant, k).1;
    let cb = outcome(deals, base, merchant, j).1;
    ||| a < b
    ||| (a == b && ca > cb)
    ||| (a == b && ca == cb && candidate(deals, base, merchant, k).len() < candidate(
        deals,
        base,
        merchant,
        j,
    ).len())
}

/// `k` is the first candidate that no other candidate beats.
pub open spec fn is_best(deals: Seq<Deal>, base: int, merchant: Seq<char>, k: int) -> bool {
    &&& 0 <= k < num_candidates(deals, base, merchant)
    &&& forall|j: int|
        0 <= j < num_candidates(deals, base, merchant) ==> !#[trigger] beats(
            deals,
            base,
            merchant,
            j,
            k,
        )
    &&& forall|j: int| 0 <= j < k ==> #[trigger] beats(deals, base, merchant, k, j)
}

pub open spec fn best_candidate(deals: Seq<Deal>, base: int, merchant: Seq<char>) -> int {
    choose|k: int| is_best(deals, base, merchant, k)
}

/// The positions of the deals the optimizer picks.
pub open spec fn optimal_candidate(deals: Seq<Deal>, base: int, merchant: Seq<char>) -> Seq<usize> {
    candidate(deals, base, merchant, best_candidate(deals, base, merchant))
}

/// The positions of the deals the optimizer applies, in application order.
pub open spec fn optimal_order(deals: Seq<Deal>, base: int, merchant: Seq<char>) -> Seq<usize> {
    application_order(deals, optimal_candidate(deals, base, merchant))
}

pub open spec fn clamp_warning(clamped: bool) -> Seq<StackWarning> {
    if clamped {
        seq![StackWarning::PriceClampedToZero]
    } else {
        Seq::empty()
    }
}

proof fn lemma_best_unique(deals: Seq<Deal>, base: int, merchant: Seq<char>, k1: int, k2: int)
    requires
        is_best(deals, base, merchant, k1),
        is_best(deals, base, merchant, k2),
    ensures
        k1 == k2,
{
    if k1 < k2 {
        assert(beats(deals, base, merchant, k2, k1));
    } else if k2 < k1 {
        assert(beats(deals, base, merchant, k1, k2));
    }
}

proof fn lemma_run_bounds(deals: Seq<Deal>, order: Seq<usize>, base: int)
    requires
        all_wf(deals),
        base >= 0,
        forall|k: int| 0 <= k < order.len() ==> (#[trigger] order[k]) < deals.len(),
    ensures
        run(deals, order, base).0 <= base * pow_base(order.len()),
        run(deals, order, base).1 <= 1000,
    decreases order.len(),
{
    if order.len() > 0 {
        let o1 = order.drop_last();
        lemma_run_bounds(deals, o1, base);
        let prev = run(deals, o1, base).0;
        let d = deals[order.last() as int];
        assert(d.wf());
        let pn = pow_base(o1.len());
        let scale = pow_base(order.len());
        crate::exact::lemma_pow_base_pos(o1.len());
        assert(scale == 10000 * pn);
        let new = run(deals, order, base).0;
        assert(prev * 10000 <= base * scale) by (nonlinear_arith)
            requires
                prev <= base * pn,
                scale == 10000 * pn,
        ;
        match d.value_type {
            ValueType::Percentage => {
                let v = d.value as int;
                assert(v <= 10000);
                if prev >= 0 {
                    assert(prev * v >= 0) by (nonlinear_arith)
                        requires
                            prev >= 0,
                            v >= 0,
                    ;
                    if d.max_discount.is_some() {
                        let m = d.max_discount.unwrap() as int;
                        assert(m * scale >= 0) by (nonlinear_arith)
                            requires
                                m >= 0,
                                scale >= 1,
                        ;
                    }
                } else {
                    assert(prev * 10000 - prev * v <= 0) by (nonlinear_arith)
                        requires
                            prev < 0,
                            0 <= v <= 10000,
                    ;
                    assert(prev * v <= 0) by (nonlinear_arith)
                        requires
                            prev < 0,
                            v >= 0,
                    ;
                    if d.max_discount.is_some() {
                        let m = d.max_discount.unwrap() as int;
                        assert(m * scale >= 0) by (nonlinear_arith)
                            requires
                                m >= 0,
                                scale >= 1,
                        ;
                    }
                    assert(base * scale >= 0) by (nonlinear_arith)
                        requires
                            base >= 0,
                            scale >= 1,
                    ;
                }
            },
            ValueType::Fixed => {
                assert(d.value * scale >= 0) by (nonlinear_arith)
                    requires
                        scale >= 1,
                ;
            },
        }
    }
}

/// Applies the deals at positions `order` to `base` cents, exactly.
fn run_stack(deals: &Vec<Deal>, order: &Vec<usize>, base: u64) -> (r: (Exact, u32))
    requires
        all_wf(deals@),
        forall|k: int| 0 <= k < order@.len() ==> (#[trigger] order@[k]) < deals@.len(),
    ensures
        r.0.wf(),
        r.0.value() == run(deals@, order@, base as int).0,
        r.1 == run(deals@, order@, base as int).1,
        r.0.value() <= base * pow_base(order@.len()),
{
    let mut price = Exact::from_u64(base);
    let mut conf: u32 = 1000;
    let mut i: usize = 0;
    while i < order.len()
        invariant
            all_wf(deals@),
            forall|k: int| 0 <= k < order@.len() ==> (#[trigger] order@[k]) < deals@.len(),
            i <= order@.len(),
            price.wf(),
            price.value() == run(deals@, order@.take(i as int), base as int).0,
            conf == run(deals@, order@.take(i as int), base as int).1,
        decreases order@.len() - i,
    {
        let d = &deals[order[i]];
        proof {
            assert(deals@[order@[i as int] as int].wf());
            assert(order@.take(i + 1).drop_last() =~= order@.take(i as int));
        }
        let up = price.times(10000);
        let disc = match d.value_type {
            ValueType::Percentage => {
                let raw = price.times(d.value);
                match d.max_discount {
                    Some(m) => {
                        let cap = Exact::from_u64(m).scaled(i + 1);
                        if cap.less_than(&raw) {
                            cap
                        } else {
                            raw
                        }
                    },
                    None => raw,
                }
            },
            ValueType::Fixed => Exact::from_u64(d.value).scaled(i + 1),
        };
        price = up.minus(&disc);
        if d.confidence < conf {
            conf = d.confidence;
        }
        i = i + 1;
    }
    assert(order@.take(i as int) =~= order@);
    proof {
        lemma_run_bounds(deals@, order@, base as int);
    }
    (price, conf)
}

/// The final price in cents of an exact price `price` at scale
/// `pow_base(k)`: clamped at zero, then rounded half to even.
fn final_cents_exec(price: &Exact, k: usize, base: u64) -> (r: u64)
    requires
        price.wf(),
        price.value() <= base * pow_base(k as nat),
    ensures
        r == round_half_even(clamp_at_zero(price.value()), pow_base(k as nat)),
        r <= base,
{
    if price.is_negative() {
        proof {
            crate::exact::lemma_pow_base_pos(k as nat);
            crate::money::lemma_round_half_even_le(0, pow_base(k as nat), 0);
            assert(round_half_even(0, pow_base(k as nat)) >= 0) by {
                assert(0int / pow_base(k as nat) == 0) by (nonlinear_arith)
                    requires
                        pow_base(k as nat) >= 1,
                ;
            }
        }
        0
    } else {
        round_exact(price, k, base)
    }
}

/// The outcome of stacking deals at a checkout.
///
/// Amounts are in cents, rounded half to even from the exact running price;
/// `confidence` is in thousandths.
#[derive(Debug)]
pub struct StackedDealResult {
    pub deals: Vec<Deal>,
    pub total_savings: u64,
    pub final_price: u64,
    pub original_price: u64,
    pub confidence: u32,
    pub application_order: Vec<String>,
    pub warnings: Vec<StackWarning>,
}

/// A request to find the best legal stack among `deals` at a checkout of
/// `base_price` cents on `merchant`.
#[derive(Debug)]
pub struct StackDealsRequest {
    pub deals: Vec<Deal>,
    pub base_price: u64,
    pub merchant: String,
}

proof fn lemma_class_indices(deals: Seq<Deal>, base: int, merchant: Seq<char>, class: int, n: int)
    requires
        0 <= n <= deals.len(),
        deals.len() <= usize::MAX,
    ensures
        forall|m: int|
            0 <= m < class_indices(deals, base, merchant, class, n).len() ==> {
                let x = #[trigger] class_indices(deals, base, merchant, class, n)[m] as int;
                &&& 0 <= x < n
                &&& eligible_at(deals, x, base, merchant)
                &&& slot(deals[x]) == class
            },
        forall|a: int, b: int|
            0 <= a < b < class_indices(deals, base, merchant, class, n).len() ==> (
            #[trigger] class_indices(deals, base, merchant, class, n)[a]) < (
            #[trigger] class_indices(deals, base, merchant, class, n)[b]),
    decreases n,
{
    if n > 0 {
        lemma_class_indices(deals, base, merchant, class, n - 1);
        let prev = class_indices(deals, base, merchant, class, n - 1);
        let cur = class_indices(deals, base, merchant, class, n);
        if eligible_at(deals, n - 1, base, merchant) && slot(deals[n - 1]) == class {
            assert(cur == prev.push((n - 1) as usize));
            assert forall|a: int, b: int| 0 <= a < b < cur.len() implies (#[trigger] cur[a]) < (
            #[trigger] cur[b]) by {
                assert(cur[a] == prev[a]);
                if b < prev.len() {
                    assert(cur[b] == prev[b]);
                } else {
                    assert(prev[a] < n - 1);
                }
            }
        } else {
            assert(cur == prev);
        }
    }
}

proof fn lemma_class_sizes(deals: Seq<Deal>, base: int, merchant: Seq<char>, n: int)
    requires
        0 <= n,
    ensures
        class_indices(deals, base, merchant, 0, n).len() + class_indices(deals, base, merchant, 1, n).len()
            + class_indices(deals, base, merchant, 2, n).len() <= n,
    decreases n,
{
    if n > 0 {
        lemma_class_sizes(deals, base, merchant, n - 1);
    }
}

fn rejection_exec(d: &Deal, base: u64, merchant: &String) -> (r: Option<StackWarning>)
    ensures
        r == rejection(*d, base as int, merchant@),
{
    if let Some(m) = d.min_purchase {
        if base < m {
            return Some(StackWarning::MinimumPurchaseNotMet { deal_id: d.id.clone() });
        }
    }
    if d.deal_type == DealType::CardOffer && !(d.platform == *merchant) {
        return Some(StackWarning::MerchantMismatch { deal_id: d.id.clone() });
    }
    None
}

fn id_seen_before(deals: &Vec<Deal>, i: usize) -> (r: bool)
    requires
        i < deals@.len(),
    ensures
        r == has_id_before(deals@, i as int),
{
    let mut j: usize = 0;
    while j < i
        invariant
            i < deals@.len(),
            j <= i,
            forall|k: int| 0 <= k < j ==> (#[trigger] deals@[k]).id@ != deals@[i as int].id@,
        decreases i - j,
    {
        if deals[j].id == deals[i].id {
            return true;
        }
        j = j + 1;
    }
    false
}

fn rejection_at_exec(deals: &Vec<Deal>, i: usize, base: u64, merchant: &String) -> (r: Option<
    StackWarning,
>)
    requires
        i < deals@.len(),
    ensures
        r == rejection_at(deals@, i as int, base as int, merchant@),
{
    if id_seen_before(deals, i) {
        return Some(StackWarning::DuplicateDeal { deal_id: deals[i].id.clone() });
    }
    rejection_exec(&deals[i], base, merchant)
}

/// Splits the deals into the three slots and collects the rejections.
fn classify(deals: &Vec<Deal>, base: u64, merchant: &String) -> (r: (
    Vec<usize>,
    Vec<usize>,
    Vec<usize>,
    Vec<StackWarning>,
))
    ensures
        r.0@ == shared_of(deals@, base as int, merchant@),
        r.1@ == coupons_of(deals@, base as int, merchant@),
        r.2@ == exclusives_of(deals@, base as int, merchant@),
        r.3@ == rejections(deals@, base as int, merchant@, deals@.len() as int),
{
    let mut shared: Vec<usize> = Vec::new();
    let mut coupons: Vec<usize> = Vec::new();
    let mut exclusives: Vec<usize> = Vec::new();
    let mut warnings: Vec<StackWarning> = Vec::new();
    let mut i: usize = 0;
    while i < deals.len()
        invariant
            i <= deals@.len(),
            shared@ == class_indices(deals@, base as int, merchant@, 0, i as int),
            coupons@ == class_indices(deals@, base as int, merchant@, 1, i as int),
            exclusives@ == class_indices(deals@, base as int, merchant@, 2, i as int),
            warnings@ == rejections(deals@, base as int, merchant@, i as int),
        decreases deals@.len() - i,
    {
        let d = &deals[i];
        match rejection_at_exec(deals, i, base, merchant) {
            Some(w) => {
                warnings.push(w);
            },
            None => {
                if !d.stackable {
                    exclusives.push(i);
                } else if d.deal_type == DealType::Coupon {
                    coupons.push(i);
                } else {
                    shared.push(i);
                }
            },
        }
        i = i + 1;
    }
    (shared, coupons, exclusives, warnings)
}

fn contains_index(v: &Vec<usize>, x: usize) -> (r: bool)
    ensures
        r == v@.contains(x),
{
    let mut i: usize = 0;
    while i < v.len()
        invariant
            i <= v@.len(),
            forall|k: int| 0 <= k < i ==> v@[k] != x,
        decreases v@.len() - i,
    {
        if v[i] == x {
            assert(v@[i as int] == x);
            return true;
        }
        i = i + 1;
    }
    false
}

/// Warns of each eligible deal that `chosen` leaves out.
fn exclusion_warnings(
    deals: &Vec<Deal>,
    base: u64,
    merchant: &String,
    chosen: &Vec<usize>,
    warnings: &mut Vec<StackWarning>,
)
    ensures
        final(warnings)@ == old(warnings)@ + exclusions(
            deals@,
            base as int,
            merchant@,
            chosen@,
            deals@.len() as int,
        ),
{
    let ghost start = warnings@;
    let mut i: usize = 0;
    assert(start + exclusions(deals@, base as int, merchant@, chosen@, 0) =~= start);
    while i < deals.len()
        invariant
            i <= deals@.len(),
            warnings@ == start + exclusions(deals@, base as int, merchant@, chosen@, i as int),
        decreases deals@.len() - i,
    {
        let eligible = rejection_at_exec(deals, i, base, merchant).is_none();
        if eligible && !contains_index(chosen, i) {
            warnings.push(StackWarning::NotCombined { deal_id: deals[i].id.clone() });
        }
        i = i + 1;
        proof {
            let prev = exclusions(deals@, base as int, merchant@, chosen@, i - 1);
            let cur = exclusions(deals@, base as int, merchant@, chosen@, i as int);
            if eligible && !chosen@.contains((i - 1) as usize) {
                assert(cur == prev.push(StackWarning::NotCombined { deal_id: deals@[i - 1].id }));
                assert(warnings@ =~= start + cur);
            }
        }
    }
}

fn candidate_exec(
    deals: Ghost<Seq<Deal>>,
    base: Ghost<int>,
    merchant: Ghost<Seq<char>>,
    shared: &Vec<usize>,
    coupons: &Vec<usize>,
    exclusives: &Vec<usize>,
    k: usize,
) -> (r: Vec<usize>)
    requires
        shared@ == shared_of(deals@, base@, merchant@),
        coupons@ == coupons_of(deals@, base@, merchant@),
        exclusives@ == exclusives_of(deals@, base@, merchant@),
        k < num_candidates(deals@, base@, merchant@),
    ensures
        r@ == candidate(deals@, base@, merchant@, k as int),
{
    if k > coupons.len() {
        let e = exclusives[k - 1 - coupons.len()];
        return vec![e];
    }
    let mut r: Vec<usize> = Vec::new();
    let mut i: usize = 0;
    while i < shared.len()
        invariant
            i <= shared@.len(),
            r@ == shared@.take(i as int),
        decreases shared@.len() - i,
    {
        r.push(shared[i]);
        i = i + 1;
        assert(r@ =~= shared@.take(i as int));
    }
    assert(r@ =~= shared@);
    if k > 0 {
        r.push(coupons[k - 1]);
    }
    r
}

/// `r` is what the optimizer returns for `deals` at a checkout of `base`
/// cents on `merchant`: the deals of `optimal_order`, in that order, the
/// exact final price clamped at zero and rounded once, half to even, then
/// the warnings for the deals that were ruled out, for the eligible deals
/// the chosen stack leaves out, and for a price clamped at zero.
pub open spec fn optimizes(deals: Seq<Deal>, base: int, merchant: Seq<char>, r: StackedDealResult) -> bool {
    let order = optimal_order(deals, base, merchant);
    &&& r.deals@.len() == order.len()
    &&& forall|i: int|
        0 <= i < order.len() ==> (#[trigger] r.deals@[i]).same_as(&deals[order[i] as int])
    &&& r.application_order@.len() == order.len()
    &&& forall|i: int|
        0 <= i < order.len() ==> #[trigger] r.application_order@[i] == deals[order[i] as int].id
    &&& r.final_price == final_cents(deals, order, base)
    &&& r.total_savings == base - r.final_price
    &&& r.original_price == base
    &&& r.confidence == run(deals, order, base).1
    &&& r.warnings@ == rejections(deals, base, merchant, deals.len() as int) + exclusions(
        deals,
        base,
        merchant,
        optimal_candidate(deals, base, merchant),
        deals.len() as int,
    ) + clamp_warning(clamped(deals, order, base))
}

/// Finds the savings-maximizing legal stack; see `optimal_order`.
pub fn optimize(deals: &Vec<Deal>, base: u64, merchant: &String) -> (r: StackedDealResult)
    requires
        all_wf(deals@),
    ensures
        optimizes(deals@, base as int, merchant@, r),
{
    let ghost gd = deals@;
    let ghost gb = base as int;
    let ghost gm = merchant@;
    let (shared, coupons, exclusives, mut warnings) = classify(deals, base, merchant);
    let n_deals = deals.len();
    proof {
        assert(gd.len() == n_deals);
        lemma_class_indices(gd, gb, gm, 0, gd.len() as int);
        lemma_class_indices(gd, gb, gm, 1, gd.len() as int);
        lemma_class_indices(gd, gb, gm, 2, gd.len() as int);
        lemma_class_sizes(gd, gb, gm, gd.len() as int);
        assert(coupons@.len() + exclusives@.len() <= n_deals);
    }
    let n_extra = coupons.len() + exclusives.len();
    let mut best_cand = candidate_exec(
        Ghost(gd),
        Ghost(gb),
        Ghost(gm),
        &shared,
        &coupons,
        &exclusives,
        0,
    );
    proof {
        lemma_application_order_rearranges(gd, best_cand@);
    }
    let mut best_order = order_for_application(deals, &best_cand);
    let (best_price, mut best_conf) = run_stack(deals, &best_order, base);
    let mut best_key = if best_price.is_negative() {
        Exact::zero()
    } else {
        best_price
    }.scaled(n_deals - best_cand.len());
    let ghost mut best_k: int = 0;
    let mut e: usize = 0;
    while e < n_extra
        invariant
            all_wf(deals@),
            deals@ == gd,
            gd.len() == n_deals,
            gb == base as int,
            gm == merchant@,
            shared@ == shared_of(gd, gb, gm),
            coupons@ == coupons_of(gd, gb, gm),
            exclusives@ == exclusives_of(gd, gb, gm),
            shared@.len() + coupons@.len() + exclusives@.len() <= n_deals,
            n_extra == coupons@.len() + exclusives@.len(),
            n_extra + 1 == num_candidates(gd, gb, gm),
            e <= n_extra,
            0 <= best_k <= e,
            best_cand@ == candidate(gd, gb, gm, best_k),
            best_order@ == application_order(gd, best_cand@),
            best_key.wf(),
            best_key.value() == price_key(gd, gb, gm, best_k),
            best_conf == outcome(gd, gb, gm, best_k).1,
            forall|m: int| 0 <= m < best_order@.len() ==> (#[trigger] best_order@[m]) < gd.len(),
            forall|j: int| 0 <= j <= e ==> !#[trigger] beats(gd, gb, gm, j, best_k),
            forall|j: int| 0 <= j < best_k ==> #[trigger] beats(gd, gb, gm, best_k, j),
            forall|m: int| 0 <= m < shared@.len() ==> (#[trigger] shared@[m]) < gd.len(),
            forall|m: int| 0 <= m < coupons@.len() ==> (#[trigger] coupons@[m]) < gd.len(),
            forall|m: int| 0 <= m < exclusives@.len() ==> (#[trigger] exclusives@[m]) < gd.len(),
        decreases n_extra - e,
    {
        let k = e + 1;
        let cand = candidate_exec(
            Ghost(gd),
            Ghost(gb),
            Ghost(gm),
            &shared,
            &coupons,
            &exclusives,
            k,
        );
        proof {
            assert forall|m: int| 0 <= m < cand@.len() implies (#[trigger] cand@[m]) < gd.len() by {
                if k as int > coupons@.len() {
                    assert(cand@[m] == exclusives@[k - 1 - coupons@.len()]);
                } else if m < shared@.len() {
                    assert(cand@[m] == shared@[m]);
                } else {
                    assert(cand@[m] == coupons@[k - 1]);
                }
            }
            assert(cand@.len() <= n_deals);
            lemma_application_order_rearranges(gd, cand@);
        }
        let order = order_for_application(deals, &cand);
        let (price, conf) = run_stack(deals, &order, base);
        let key = if price.is_negative() {
            Exact::zero()
        } else {
            price
        }.scaled(n_deals - cand.len());
        let wins = key.less_than(&best_key) || (!best_key.less_than(&key) && (conf > best_conf || (
        conf == best_conf && cand.len() < best_cand.len())));
        assert(wins == beats(gd, gb, gm, k as int, best_k));
        if wins {
            proof {
                let old_k = best_k;
                assert forall|j: int| 0 <= j < k + 1 implies !#[trigger] beats(
                    gd,
                    gb,
                    gm,
                    j,
                    k as int,
                ) by {
                    if j < k {
                        assert(!beats(gd, gb, gm, j, old_k));
                    }
                }
                assert forall|j: int| 0 <= j < k implies #[trigger] beats(
                    gd,
                    gb,
                    gm,
                    k as int,
                    j,
                ) by {
                    assert(!beats(gd, gb, gm, j, old_k));
                    if j < old_k {
                        assert(beats(gd, gb, gm, old_k, j));
                    }
                }
                best_k = k as int;
            }
            best_cand = cand;
            best_order = order;
            best_key = key;
            best_conf = conf;
        }
        e = e + 1;
    }
    proof {
        assert(is_best(gd, gb, gm, best_k));
        lemma_best_unique(gd, gb, gm, best_k, best_candidate(gd, gb, gm));
    }
    let mut applied: Vec<Deal> = Vec::new();
    let mut ids: Vec<String> = Vec::new();
    let mut i: usize = 0;
    while i < best_order.len()
        invariant
            i <= best_order@.len(),
            deals@ == gd,
            best_order@ == optimal_order(gd, gb, gm),
            forall|m: int| 0 <= m < best_order@.len() ==> (#[trigger] best_order@[m]) < gd.len(),
            applied@.len() == i,
            ids@.len() == i,
            forall|m: int|
                0 <= m < i ==> (#[trigger] applied@[m]).same_as(&gd[best_order@[m] as int]),
            forall|m: int| 0 <= m < i ==> #[trigger] ids@[m] == gd[best_order@[m] as int].id,
        decreases best_order@.len() - i,
    {
        let d = &deals[best_order[i]];
        applied.push(d.duplicate());
        ids.push(d.id.clone());
        i = i + 1;
    }
    let (price, conf) = run_stack(deals, &best_order, base);
    let final_price = final_cents_exec(&price, best_order.len(), base);
    exclusion_warnings(deals, base, merchant, &best_cand, &mut warnings);
    let negative = price.is_negative();
    if negative {
        warnings.push(StackWarning::PriceClampedToZero);
    }
    proof {
        let rej = rejections(gd, gb, gm, gd.len() as int);
        let exc = exclusions(gd, gb, gm, optimal_candidate(gd, gb, gm), gd.len() as int);
        assert(warnings@ =~= rej + exc + clamp_warning(negative));
    }
    StackedDealResult {
        deals: applied,
        total_savings: base - final_price,
        final_price,
        original_price: base,
        confidence: conf,
        application_order: ids,
        warnings,
    }
}

/// The first rule a caller-supplied stack breaks.
#[derive(Debug, Clone)]
pub enum StackViolation {
    NonStackableCombined { deal_id: String },
    TwoCouponDeals { deal_id: String },
    MinimumPurchaseNotMet { deal_id: String },
    MerchantMismatch { deal_id: String },
}

pub open spec fn violation_text(v: StackViolation) -> Seq<char> {
    match v {
        StackViolation::NonStackableCombined { deal_id } => "non-stackable deal combined with others: "@
            + deal_id@,
        StackViolation::TwoCouponDeals { deal_id } => "two coupon-type deals: "@ + deal_id@,
        StackViolation::MinimumPurchaseNotMet { deal_id } => "minimum purchase not met for deal "@
            + deal_id@,
        StackViolation::MerchantMismatch { deal_id } => "merchant mismatch for deal "@ + deal_id@,
    }
}

impl StackViolation {
    /// The rule, named in words, and the deal that broke it.
    pub fn message(&self) -> (r: String)
        ensures
            r@ == violation_text(*self),
            r@.len() > 0,
    {
        proof {
            reveal_strlit("non-stackable deal combined with others: ");
            reveal_strlit("two coupon-type deals: ");
            reveal_strlit("minimum purchase not met for deal ");
            reveal_strlit("merchant mismatch for deal ");
        }
        match self {
            StackViolation::NonStackableCombined { deal_id } => String::from_str(
                "non-stackable deal combined with others: ",
            ).concat(deal_id.as_str()),
            StackViolation::TwoCouponDeals { deal_id } => String::from_str(
                "two coupon-type deals: ",
            ).concat(deal_id.as_str()),
            StackViolation::MinimumPurchaseNotMet { deal_id } => String::from_str(
                "minimum purchase not met for deal ",
            ).concat(deal_id.as_str()),
            StackViolation::MerchantMismatch { deal_id } => String::from_str(
                "merchant mismatch for deal ",
            ).concat(deal_id.as_str()),
        }
    }
}

pub open spec fn has_exclusive_before(deals: Seq<Deal>, i: int) -> bool {
    exists|j: int| 0 <= j < i && !(#[trigger] deals[j]).stackable
}

pub open spec fn has_coupon_before(deals: Seq<Deal>, i: int) -> bool {
    exists|j: int| 0 <= j < i && (#[trigger] deals[j]).deal_type == DealType::Coupon
}

/// The first rule, in rule order, that `d` breaks by joining a partial
/// stack: one that is `nonempty`, holds a non-stackable deal when
/// `has_exclusive`, and a coupon-type deal when `has_coupon`. None means `d`
/// may join.
pub open spec fn joining_violation(
    d: Deal,
    nonempty: bool,
    has_exclusive: bool,
    has_coupon: bool,
    base: int,
    merchant: Seq<char>,
) -> Option<StackViolation> {
    if nonempty && (!d.stackable || has_exclusive) {
        Some(StackViolation::NonStackableCombined { deal_id: d.id })
    } else if d.deal_type == DealType::Coupon && has_coupon {
        Some(StackViolation::TwoCouponDeals { deal_id: d.id })
    } else if d.min_purchase.is_some() && base < d.min_purchase.unwrap() {
        Some(StackViolation::MinimumPurchaseNotMet { deal_id: d.id })
    } else if d.deal_type == DealType::CardOffer && d.platform@ != merchant {
        Some(StackViolation::MerchantMismatch { deal_id: d.id })
    } else {
        None
    }
}

/// The rule that the deal at position `i` breaks when it joins the deals
/// before it.
pub open spec fn violation_at(deals: Seq<Deal>, i: int, base: int, merchant: Seq<char>) -> Option<
    StackViolation,
> {
    joining_violation(
        deals[i],
        i > 0,
        has_exclusive_before(deals, i),
        has_coupon_before(deals, i),
        base,
        merchant,
    )
}

fn joining_violation_exec(
    d: &Deal,
    nonempty: bool,
    has_exclusive: bool,
    has_coupon: bool,
    base: u64,
    merchant: &String,
) -> (r: Option<StackViolation>)
    ensures
        r == joining_violation(*d, nonempty, has_exclusive, has_coupon, base as int, merchant@),
{
    if nonempty && (!d.stackable || has_exclusive) {
        Some(StackViolation::NonStackableCombined { deal_id: d.id.clone() })
    } else if d.deal_type == DealType::Coupon && has_coupon {
        Some(StackViolation::TwoCouponDeals { deal_id: d.id.clone() })
    } else {
        match rejection_exec(d, base, merchant) {
            Some(StackWarning::MinimumPurchaseNotMet { deal_id }) => Some(
                StackViolation::MinimumPurchaseNotMet { deal_id },
            ),
            Some(StackWarning::MerchantMismatch { deal_id }) => Some(
                StackViolation::MerchantMismatch { deal_id },
            ),
            _ => None,
        }
    }
}

/// Whether `candidate` may join the partial `stack` at a checkout of `base`
/// cents on `merchant`: none if it may, else the first rule it breaks.
pub fn check_join(stack: &Vec<Deal>, candidate: &Deal, base: u64, merchant: &String) -> (r: Option<
    StackViolation,
>)
    ensures
        r == joining_violation(
            *candidate,
            stack@.len() > 0,
            has_exclusive_before(stack@, stack@.len() as int),
            has_coupon_before(stack@, stack@.len() as int),
            base as int,
            merchant@,
        ),
{
    let mut has_exclusive = false;
    let mut has_coupon = false;
    let mut i: usize = 0;
    while i < stack.len()
        invariant
            i <= stack@.len(),
            has_exclusive == has_exclusive_before(stack@, i as int),
            has_coupon == has_coupon_before(stack@, i as int),
        decreases stack@.len() - i,
    {
        let d = &stack[i];
        proof {
            if !d.stackable {
                assert(!stack@[i as int].stackable);
            }
            if d.deal_type == DealType::Coupon {
                assert(stack@[i as int].deal_type == DealType::Coupon);
            }
            assert(has_exclusive_before(stack@, i + 1) == (has_exclusive || !d.stackable));
            assert(has_coupon_before(stack@, i + 1) == (has_coupon || d.deal_type
                == DealType::Coupon));
        }
        if !d.stackable {
            has_exclusive = true;
        }
        if d.deal_type == DealType::Coupon {
            has_coupon = true;
        }
        i = i + 1;
    }
    joining_violation_exec(candidate, stack.len() > 0, has_exclusive, has_coupon, base, merchant)
}

/// The first violation among the first `n` deals of the stack.
pub open spec fn first_violation(deals: Seq<Deal>, base: int, merchant: Seq<char>, n: int) -> Option<
    StackViolation,
>
    decreases n,
{
    if n <= 0 {
        None
    } else {
        match first_violation(deals, base, merchant, n - 1) {
            Some(v) => Some(v),
            None => violation_at(deals, n - 1, base, merchant),
        }
    }
}

/// Positions `0..n` in order.
pub open spec fn in_given_order(n: int) -> Seq<usize> {
    Seq::new(n as nat, |i: int| i as usize)
}

/// The result of checking a caller-supplied stack.
#[derive(Debug)]
pub struct ValidateStackResponse {
    pub valid: bool,
    pub total_savings: Option<u64>,
    pub final_price: Option<u64>,
    pub confidence: Option<u32>,
    pub warnings: Vec<StackWarning>,
    pub error: Option<StackViolation>,
}

/// A stack of deals, in the caller's order, to check at a checkout of
/// `base_price` cents on `merchant`.
#[derive(Debug)]
pub struct ValidateStackRequest {
    pub deals: Vec<Deal>,
    pub base_price: u64,
    pub merchant: String,
}

/// `r` is the validator's answer for the stack `deals`, in the caller's
/// order: the first broken rule with no totals, or the totals of applying
/// the deals in that order.
pub open spec fn validates(deals: Seq<Deal>, base: u64, merchant: Seq<char>, r: ValidateStackResponse) -> bool {
    let n = deals.len() as int;
    let order = in_given_order(n);
    match first_violation(deals, base as int, merchant, n) {
        Some(v) => {
            &&& !r.valid
            &&& r.error == Some(v)
            &&& r.total_savings.is_none()
            &&& r.final_price.is_none()
            &&& r.confidence.is_none()
            &&& r.warnings@.len() == 0
        },
        None => {
            &&& r.valid
            &&& r.error.is_none()
            &&& r.final_price == Some(final_cents(deals, order, base as int) as u64)
            &&& r.total_savings == Some((base - final_cents(deals, order, base as int)) as u64)
            &&& r.confidence == Some(run(deals, order, base as int).1 as u32)
            &&& r.warnings@ == clamp_warning(clamped(deals, order, base as int))
            &&& 0 <= final_cents(deals, order, base as int) <= base
        },
    }
}

/// Checks a caller-supplied stack and, when it is legal, totals it in the
/// caller's order.
pub fn validate(deals: &Vec<Deal>, base: u64, merchant: &String) -> (r: ValidateStackResponse)
    requires
        all_wf(deals@),
    ensures
        validates(deals@, base, merchant@, r),
{
    let n = deals.len();
    let mut seen_exclusive = false;
    let mut seen_coupon = false;
    let mut i: usize = 0;
    while i < n
        invariant
            n == deals@.len(),
            i <= n,
            first_violation(deals@, base as int, merchant@, i as int).is_none(),
            seen_exclusive == has_exclusive_before(deals@, i as int),
            seen_coupon == has_coupon_before(deals@, i as int),
        decreases n - i,
    {
        let d = &deals[i];
        let v = joining_violation_exec(d, i > 0, seen_exclusive, seen_coupon, base, merchant);
        assert(v == violation_at(deals@, i as int, base as int, merchant@));
        if let Some(v) = v {
            proof {
                let m = deals@.len() as int;
                lemma_first_violation_stays(deals@, base as int, merchant@, i as int + 1, m);
            }
            return ValidateStackResponse {
                valid: false,
                total_savings: None,
                final_price: None,
                confidence: None,
                warnings: Vec::new(),
                error: Some(v),
            };
        }
        proof {
            if !d.stackable {
                assert(!deals@[i as int].stackable);
            }
            if d.deal_type == DealType::Coupon {
                assert(deals@[i as int].deal_type == DealType::Coupon);
            }
            assert(has_exclusive_before(deals@, i + 1) == (seen_exclusive || !d.stackable));
            assert(has_coupon_before(deals@, i + 1) == (seen_coupon || d.deal_type
                == DealType::Coupon));
        }
        if !d.stackable {
            seen_exclusive = true;
        }
        if d.deal_type == DealType::Coupon {
            seen_coupon = true;
        }
        i = i + 1;
    }
    let mut order: Vec<usize> = Vec::new();
    let mut k: usize = 0;
    while k < n
        invariant
            n == deals@.len(),
            k <= n,
            order@ == in_given_order(k as int),
        decreases n - k,
    {
        order.push(k);
        k = k + 1;
        assert(order@ =~= in_given_order(k as int));
    }
    assert forall|m: int| 0 <= m < order@.len() implies (#[trigger] order@[m]) < deals@.len() by {
        assert(order@[m] == m);
    }
    let (price, conf) = run_stack(deals, &order, base);
    let final_price = final_cents_exec(&price, order.len(), base);
    let negative = price.is_negative();
    let mut warnings: Vec<StackWarning> = Vec::new();
    if negative {
        warnings.push(StackWarning::PriceClampedToZero);
    }
    assert(warnings@ =~= clamp_warning(negative));
    ValidateStackResponse {
        valid: true,
        total_savings: Some(base - final_price),
        final_price: Some(final_price),
        confidence: Some(conf),
        warnings,
        error: None,
    }
}

proof fn lemma_first_violation_stays(deals: Seq<Deal>, base: int, merchant: Seq<char>, i: int, n: int)
    requires
        0 <= i <= n,
        first_violation(deals, base, merchant, i).is_some(),
    ensures
        first_violation(deals, base, merchant, n) == first_violation(deals, base, merchant, i),
    decreases n - i,
{
    if n > i {
        lemma_first_violation_stays(deals, base, merchant, i, n - 1);
    }
}

/// The checkout engine: finds the best stack, or checks a given one.
pub struct StackSmartEngine;

impl StackSmartEngine {
    pub fn new() -> (r: Self) {
        StackSmartEngine
    }

    /// The savings-maximizing legal stack for the request; see `optimize`.
    pub fn optimize_deals(&self, request: StackDealsRequest) -> (r: StackedDealResult)
        requires
            all_wf(request.deals@),
        ensures
            optimizes(request.deals@, request.base_price as int, request.merchant@, r),
    {
        optimize(&request.deals, request.base_price, &request.merchant)
    }

    /// Checks the request's stack in the caller's order; see `validate`.
    pub fn validate_deal_stack(&self, request: ValidateStackRequest) -> (r: ValidateStackResponse)
        requires
            all_wf(request.deals@),
        ensures
            validates(request.deals@, request.base_price, request.merchant@, r),
    {
        validate(&request.deals, request.base_price, &request.merchant)
    }
}


proof fn lemma_insert_pos_bound(deals: Seq<Deal>, t: Seq<usize>, x: usize)
    ensures
        insert_pos(deals, t, x) <= t.len(),
    decreases t.len(),
{
    if t.len() > 0 {
        lemma_insert_pos_bound(deals, t.skip(1), x);
    }
}

/// Putting deals in application order only rearranges them.
proof fn lemma_application_order_rearranges(deals: Seq<Deal>, s: Seq<usize>)
    ensures
        application_order(deals, s).len() == s.len(),
        forall|y: usize| #[trigger] application_order(deals, s).contains(y) <==> s.contains(y),
        s.no_duplicates() ==> application_order(deals, s).no_duplicates(),
    decreases s.len(),
{
    if s.len() > 0 {
        let s1 = s.drop_last();
        let x = s.last();
        let t = application_order(deals, s1);
        lemma_application_order_rearranges(deals, s1);
        lemma_insert_pos_bound(deals, t, x);
        let p = insert_pos(deals, t, x) as int;
        let r = application_order(deals, s);
        assert(r == t.take(p).push(x) + t.skip(p));
        assert(r.len() == t.len() + 1);
        assert forall|a: int| 0 <= a < p implies r[a] == t[a] by {}
        assert(r[p] == x);
        assert forall|a: int| p < a < r.len() implies r[a] == t[a - 1] by {}
        assert forall|y: usize| r.contains(y) <==> s.contains(y) by {
            if r.contains(y) {
                let a = choose|a: int| 0 <= a < r.len() && r[a] == y;
                if a < p {
                    assert(t.contains(y));
                    assert(s1.contains(y));
                    let b = choose|b: int| 0 <= b < s1.len() && s1[b] == y;
                    assert(s[b] == y);
                } else if a == p {
                    assert(s[s.len() - 1] == y);
                } else {
                    assert(t[a - 1] == y);
                    assert(t.contains(y));
                    assert(s1.contains(y));
                    let b = choose|b: int| 0 <= b < s1.len() && s1[b] == y;
                    assert(s[b] == y);
                }
            }
            if s.contains(y) {
                let b = choose|b: int| 0 <= b < s.len() && s[b] == y;
                if b == s.len() - 1 {
                    assert(r[p] == y);
                } else {
                    assert(s1[b] == y);
                    assert(s1.contains(y));
                    assert(t.contains(y));
                    let a = choose|a: int| 0 <= a < t.len() && t[a] == y;
                    if a < p {
                        assert(r[a] == y);
                    } else {
                        assert(r[a + 1] == y);
                    }
                }
            }
        }
        if s.no_duplicates() {
            assert(s1.no_duplicates()) by {
                assert forall|i: int, j: int|
                    0 <= i < s1.len() && 0 <= j < s1.len() && i != j implies s1[i] != s1[j] by {
                    assert(s[i] == s1[i] && s[j] == s1[j]);
                }
            }
            assert(!t.contains(x)) by {
                if t.contains(x) {
                    assert(s1.contains(x));
                    let b = choose|b: int| 0 <= b < s1.len() && s1[b] == x;
                    assert(s[b] == s[s.len() - 1]);
                }
            }
            assert forall|i: int, j: int|
                0 <= i < r.len() && 0 <= j < r.len() && i != j implies r[i] != r[j] by {
                if i != p && j != p {
                    let ti = if i < p { i } else { i - 1 };
                    let tj = if j < p { j } else { j - 1 };
                    assert(r[i] == t[ti]);
                    assert(r[j] == t[tj]);
                } else if i == p {
                    let tj = if j < p { j } else { j - 1 };
                    assert(r[j] == t[tj]);
                    assert(t.contains(r[j]));
                } else {
                    let ti = if i < p { i } else { i - 1 };
                    assert(r[i] == t[ti]);
                    assert(t.contains(r[i]));
                }
            }
        }
    }
}

/// Every candidate stack is legal: at most one coupon-type deal, and a
/// non-stackable deal only alone; no deal appears twice.
proof fn lemma_candidate_legal(deals: Seq<Deal>, base: int, merchant: Seq<char>, k: int)
    requires
        0 <= k < num_candidates(deals, base, merchant),
        deals.len() <= usize::MAX,
    ensures
        ({
            let c = candidate(deals, base, merchant, k);
            &&& c.no_duplicates()
            &&& forall|m: int| 0 <= m < c.len() ==> (#[trigger] c[m]) < deals.len()
            &&& forall|a: int, b: int|
                0 <= a < c.len() && 0 <= b < c.len() && deals[c[a] as int].deal_type
                    == DealType::Coupon && deals[c[b] as int].deal_type == DealType::Coupon
                    ==> #[trigger] c[a] == #[trigger] c[b]
            &&& forall|m: int| 0 <= m < c.len() && !(#[trigger] deals[c[m] as int]).stackable ==> c.len() == 1
            &&& forall|m: int| 0 <= m < c.len() ==> eligible_at(deals, #[trigger] c[m] as int, base, merchant)
        }),
{
    let n = deals.len() as int;
    lemma_class_indices(deals, base, merchant, 0, n);
    lemma_class_indices(deals, base, merchant, 1, n);
    lemma_class_indices(deals, base, merchant, 2, n);
    let shared = shared_of(deals, base, merchant);
    let coupons = coupons_of(deals, base, merchant);
    let c = candidate(deals, base, merchant, k);
    assert forall|i: int, j: int|
        0 <= i < shared.len() && 0 <= j < shared.len() && i != j implies shared[i] != shared[j] by {
        if i < j {
            assert(shared[i] < shared[j]);
        } else {
            assert(shared[j] < shared[i]);
        }
    }
    if k == 0 {
        assert(c == shared);
        assert forall|m: int| 0 <= m < c.len() implies slot(#[trigger] deals[c[m] as int]) == 0 by {
            assert(slot(deals[shared[m] as int]) == 0);
        }
        assert forall|m: int| 0 <= m < c.len() implies eligible_at(deals, #[trigger] c[m] as int, base, merchant) by {
            assert(c[m] == shared[m]);
        }
    } else if k <= coupons.len() {
        let cp = coupons[k - 1];
        assert(slot(deals[cp as int]) == 1);
        assert(c == shared.push(cp));
        assert forall|m: int| 0 <= m < c.len() - 1 implies slot(#[trigger] deals[c[m] as int]) == 0 by {
            assert(c[m] == shared[m]);
        }
        assert forall|i: int, j: int| 0 <= i < c.len() && 0 <= j < c.len() && i != j implies c[i]
            != c[j] by {
            if i < c.len() - 1 && j < c.len() - 1 {
                assert(c[i] == shared[i] && c[j] == shared[j]);
            } else if i < c.len() - 1 {
                assert(slot(deals[c[i] as int]) == 0);
            } else {
                assert(slot(deals[c[j] as int]) == 0);
            }
        }
        assert forall|a: int, b: int|
            0 <= a < c.len() && 0 <= b < c.len() && deals[c[a] as int].deal_type
                == DealType::Coupon && deals[c[b] as int].deal_type == DealType::Coupon
                implies #[trigger] c[a] == #[trigger] c[b] by {
            if a < c.len() - 1 {
                assert(slot(deals[c[a] as int]) == 0);
            }
            if b < c.len() - 1 {
                assert(slot(deals[c[b] as int]) == 0);
            }
        }
        assert forall|m: int| 0 <= m < c.len() && !(#[trigger] deals[c[m] as int]).stackable implies c.len()
            == 1 by {
            if m < c.len() - 1 {
                assert(slot(deals[c[m] as int]) == 0);
            }
        }
        assert forall|m: int| 0 <= m < c.len() implies eligible_at(deals, #[trigger] c[m] as int, base, merchant) by {
            if m < c.len() - 1 {
                assert(c[m] == shared[m]);
            } else {
                assert(c[m] == coupons[k - 1]);
            }
        }
    } else {
        let exclusives = exclusives_of(deals, base, merchant);
        assert(c == seq![exclusives[k - 1 - coupons.len()]]);
        assert(c[0] == exclusives[k - 1 - coupons.len()]);
    }
}


/// Some candidate is the first that no other candidate beats.
proof fn lemma_best_exists(deals: Seq<Deal>, base: int, merchant: Seq<char>, m: int) -> (k: int)
    requires
        1 <= m <= num_candidates(deals, base, merchant),
    ensures
        0 <= k < m,
        forall|j: int| 0 <= j < m ==> !#[trigger] beats(deals, base, merchant, j, k),
        forall|j: int| 0 <= j < k ==> #[trigger] beats(deals, base, merchant, k, j),
    decreases m,
{
    if m == 1 {
        0
    } else {
        let prev = lemma_best_exists(deals, base, merchant, m - 1);
        let last = m - 1;
        if beats(deals, base, merchant, last, prev) {
            assert forall|j: int| 0 <= j < m implies !#[trigger] beats(deals, base, merchant, j, last) by {
                if j < last {
                    assert(!beats(deals, base, merchant, j, prev));
                }
            }
            assert forall|j: int| 0 <= j < last implies #[trigger] beats(deals, base, merchant, last, j) by {
                assert(!beats(deals, base, merchant, j, prev));
                if j < prev {
                    assert(beats(deals, base, merchant, prev, j));
                }
            }
            last
        } else {
            prev
        }
    }
}

/// The optimizer's choice is well defined: `best_candidate` is a candidate
/// that no candidate beats, and it beats every candidate listed before it.
pub proof fn lemma_best_candidate(deals: Seq<Deal>, base: int, merchant: Seq<char>)
    ensures
        is_best(deals, base, merchant, best_candidate(deals, base, merchant)),
{
    let k = lemma_best_exists(deals, base, merchant, num_candidates(deals, base, merchant));
    assert(is_best(deals, base, merchant, k));
}

proof fn lemma_rejections_not_clamp(deals: Seq<Deal>, base: int, merchant: Seq<char>, n: int)
    ensures
        !rejections(deals, base, merchant, n).contains(StackWarning::PriceClampedToZero),
    decreases n,
{
    if n > 0 {
        lemma_rejections_not_clamp(deals, base, merchant, n - 1);
        let prev = rejections(deals, base, merchant, n - 1);
        let cur = rejections(deals, base, merchant, n);
        if cur.contains(StackWarning::PriceClampedToZero) {
            let a = choose|a: int| 0 <= a < cur.len() && cur[a] == StackWarning::PriceClampedToZero;
            if a < prev.len() {
                assert(prev[a] == cur[a]);
            }
        }
    }
}

proof fn lemma_exclusions_not_clamp(
    deals: Seq<Deal>,
    base: int,
    merchant: Seq<char>,
    chosen: Seq<usize>,
    n: int,
)
    ensures
        !exclusions(deals, base, merchant, chosen, n).contains(StackWarning::PriceClampedToZero),
    decreases n,
{
    if n > 0 {
        lemma_exclusions_not_clamp(deals, base, merchant, chosen, n - 1);
        let prev = exclusions(deals, base, merchant, chosen, n - 1);
        let cur = exclusions(deals, base, merchant, chosen, n);
        if cur.contains(StackWarning::PriceClampedToZero) {
            let a = choose|a: int| 0 <= a < cur.len() && cur[a] == StackWarning::PriceClampedToZero;
            if a < prev.len() {
                assert(prev[a] == cur[a]);
            }
        }
    }
}

/// With no deals, nothing is applied, the final price is the base price,
/// nothing is saved and there are no warnings.
pub proof fn lemma_no_deals(base: u64, merchant: Seq<char>)
    ensures
        optimal_order(Seq::<Deal>::empty(), base as int, merchant).len() == 0,
        final_cents(
            Seq::<Deal>::empty(),
            optimal_order(Seq::<Deal>::empty(), base as int, merchant),
            base as int,
        ) == base,
        rejections(Seq::<Deal>::empty(), base as int, merchant, 0) + exclusions(
            Seq::<Deal>::empty(),
            base as int,
            merchant,
            optimal_candidate(Seq::<Deal>::empty(), base as int, merchant),
            0,
        ) + clamp_warning(
            clamped(
                Seq::<Deal>::empty(),
                optimal_order(Seq::<Deal>::empty(), base as int, merchant),
                base as int,
            ),
        ) == Seq::<StackWarning>::empty(),
{
    let deals = Seq::<Deal>::empty();
    let b = base as int;
    lemma_best_candidate(deals, b, merchant);
    assert(num_candidates(deals, b, merchant) == 1);
    assert(candidate(deals, b, merchant, 0) == Seq::<usize>::empty());
    assert(application_order(deals, Seq::<usize>::empty()) == Seq::<usize>::empty());
    assert(pow_base(0) == 1);
    crate::money::lemma_round_half_even_exact(b, 1);
    assert(b * 1 == b);
    assert(rejections(deals, b, merchant, 0) + exclusions(
        deals,
        b,
        merchant,
        optimal_candidate(deals, b, merchant),
        0,
    ) + clamp_warning(false) =~= Seq::<StackWarning>::empty());
}

/// The final price is never negative and never above the base price, and a
/// price clamped at zero is always, and only then, reported: exactly when
/// the exact sequential price ends below zero.
pub proof fn lemma_clamping_reported(deals: Seq<Deal>, base: u64, merchant: Seq<char>)
    requires
        all_wf(deals),
        deals.len() <= usize::MAX,
    ensures
        0 <= final_cents(deals, optimal_order(deals, base as int, merchant), base as int) <= base,
        clamped(deals, optimal_order(deals, base as int, merchant), base as int) <==> (rejections(
            deals,
            base as int,
            merchant,
            deals.len() as int,
        ) + exclusions(
            deals,
            base as int,
            merchant,
            optimal_candidate(deals, base as int, merchant),
            deals.len() as int,
        ) + clamp_warning(
            clamped(deals, optimal_order(deals, base as int, merchant), base as int),
        )).contains(StackWarning::PriceClampedToZero),
{
    let b = base as int;
    lemma_best_candidate(deals, b, merchant);
    let c = optimal_candidate(deals, b, merchant);
    let order = optimal_order(deals, b, merchant);
    lemma_candidate_legal(deals, b, merchant, best_candidate(deals, b, merchant));
    lemma_application_order_rearranges(deals, c);
    assert forall|k: int| 0 <= k < order.len() implies (#[trigger] order[k]) < deals.len() by {
        assert(order.contains(order[k]));
        let i = choose|i: int| 0 <= i < c.len() && c[i] == order[k];
    }
    lemma_run_bounds(deals, order, b);
    let p = pow_base(order.len());
    crate::exact::lemma_pow_base_pos(order.len());
    let x = clamp_at_zero(run(deals, order, b).0);
    assert(x <= b * p) by (nonlinear_arith)
        requires
            x == 0 || x == run(deals, order, b).0,
            run(deals, order, b).0 <= b * p,
            b >= 0,
            p >= 1,
    ;
    crate::money::lemma_round_half_even_le(x, p, b);
    assert(x / p >= 0) by (nonlinear_arith)
        requires
            x >= 0,
            p >= 1,
    ;
    let rej = rejections(deals, b, merchant, deals.len() as int);
    let exc = exclusions(deals, b, merchant, c, deals.len() as int);
    lemma_rejections_not_clamp(deals, b, merchant, deals.len() as int);
    lemma_exclusions_not_clamp(deals, b, merchant, c, deals.len() as int);
    let cl = clamped(deals, order, b);
    let all = rej + exc + clamp_warning(cl);
    if cl {
        assert(all[(rej.len() + exc.len()) as int] == StackWarning::PriceClampedToZero);
    } else {
        assert(all =~= rej + exc);
        if all.contains(StackWarning::PriceClampedToZero) {
            let a = choose|a: int| 0 <= a < all.len() && all[a] == StackWarning::PriceClampedToZero;
            if a < rej.len() {
                assert(rej[a] == all[a]);
            } else {
                assert(exc[a - rej.len()] == all[a]);
            }
        }
    }
}

/// The optimizer's stack is legal: no deal twice and no id twice, at most
/// one coupon-type deal, and a non-stackable deal only as the sole member.
pub proof fn lemma_optimal_stack_is_legal(deals: Seq<Deal>, base: u64, merchant: Seq<char>)
    requires
        deals.len() <= usize::MAX,
    ensures
        ({
            let order = optimal_order(deals, base as int, merchant);
            &&& order.no_duplicates()
            &&& forall|a: int, b: int|
                0 <= a < order.len() && 0 <= b < order.len() && a != b && (#[trigger] deals[order[a] as int]).deal_type
                    == DealType::Coupon ==> (#[trigger] deals[order[b] as int]).deal_type != DealType::Coupon
            &&& forall|a: int| 0 <= a < order.len() && !(#[trigger] deals[order[a] as int]).stackable ==> order.len() == 1
            &&& forall|a: int, b: int|
                0 <= a < order.len() && 0 <= b < order.len() && a != b ==> (#[trigger] deals[order[a] as int]).id@
                    != (#[trigger] deals[order[b] as int]).id@
        }),
{
    let b = base as int;
    lemma_best_candidate(deals, b, merchant);
    let k = best_candidate(deals, b, merchant);
    let c = candidate(deals, b, merchant, k);
    lemma_candidate_legal(deals, b, merchant, k);
    lemma_application_order_rearranges(deals, c);
    let order = application_order(deals, c);
    assert forall|a: int, bb: int|
        0 <= a < order.len() && 0 <= bb < order.len() && a != bb && (#[trigger] deals[order[a] as int]).deal_type
            == DealType::Coupon implies (#[trigger] deals[order[bb] as int]).deal_type != DealType::Coupon by {
        assert(order.contains(order[a]));
        assert(order.contains(order[bb]));
        let ia = choose|i: int| 0 <= i < c.len() && c[i] == order[a];
        let ib = choose|i: int| 0 <= i < c.len() && c[i] == order[bb];
        if deals[order[bb] as int].deal_type == DealType::Coupon {
            assert(c[ia] == c[ib]);
        }
    }
    assert forall|a: int| 0 <= a < order.len() && !(#[trigger] deals[order[a] as int]).stackable implies order.len()
        == 1 by {
        assert(order.contains(order[a]));
        let ia = choose|i: int| 0 <= i < c.len() && c[i] == order[a];
        assert(!deals[c[ia] as int].stackable);
    }
    assert forall|a: int, bb: int|
        0 <= a < order.len() && 0 <= bb < order.len() && a != bb implies (#[trigger] deals[order[a] as int]).id@
            != (#[trigger] deals[order[bb] as int]).id@ by {
        assert(order.contains(order[a]));
        assert(order.contains(order[bb]));
        let ia = choose|i: int| 0 <= i < c.len() && c[i] == order[a];
        let ib = choose|i: int| 0 <= i < c.len() && c[i] == order[bb];
        assert(eligible_at(deals, c[ia] as int, b, merchant));
        assert(eligible_at(deals, c[ib] as int, b, merchant));
        assert(order[a] != order[bb]);
        let x = order[a] as int;
        let y = order[bb] as int;
        if x < y {
            assert(!has_id_before(deals, y));
        } else {
            assert(!has_id_before(deals, x));
        }
    }
}

/// The optimizer is deterministic: two results for the same input agree in
/// every field, including which deals were picked and their order.
pub proof fn lemma_optimizer_deterministic(
    deals: Seq<Deal>,
    base: int,
    merchant: Seq<char>,
    r1: StackedDealResult,
    r2: StackedDealResult,
)
    requires
        optimizes(deals, base, merchant, r1),
        optimizes(deals, base, merchant, r2),
    ensures
        r1.deals@.len() == r2.deals@.len(),
        forall|i: int| 0 <= i < r1.deals@.len() ==> (#[trigger] r1.deals@[i]).same_as(&r2.deals@[i]),
        r1.application_order@ == r2.application_order@,
        r1.total_savings == r2.total_savings,
        r1.final_price == r2.final_price,
        r1.original_price == r2.original_price,
        r1.confidence == r2.confidence,
        r1.warnings@ == r2.warnings@,
{
    assert(r1.application_order@ =~= r2.application_order@);
}

/// A stack with two coupon-type deals is rejected, with a message that
/// names the broken rule.
pub proof fn lemma_two_coupons_rejected(
    deals: Seq<Deal>,
    base: int,
    merchant: Seq<char>,
    i: int,
    j: int,
)
    requires
        0 <= i < j < deals.len(),
        deals[i].deal_type == DealType::Coupon,
        deals[j].deal_type == DealType::Coupon,
    ensures
        first_violation(deals, base, merchant, deals.len() as int) is Some,
        violation_text(first_violation(deals, base, merchant, deals.len() as int)->0).len() > 0,
{
    assert(has_coupon_before(deals, j));
    if first_violation(deals, base, merchant, j).is_none() {
        assert(violation_at(deals, j, base, merchant).is_some());
    }
    assert(first_violation(deals, base, merchant, j + 1).is_some());
    lemma_first_violation_stays(deals, base, merchant, j + 1, deals.len() as int);
    reveal_strlit("non-stackable deal combined with others: ");
    reveal_strlit("two coupon-type deals: ");
    reveal_strlit("minimum purchase not met for deal ");
    reveal_strlit("merchant mismatch for deal ");
}


/// The deals the optimizer returns form a legal stack: at most one
/// coupon-type deal, a non-stackable deal only as the sole member, and no id
/// twice.
pub proof fn lemma_optimized_deals_are_legal(
    deals: Seq<Deal>,
    base: u64,
    merchant: Seq<char>,
    r: StackedDealResult,
)
    requires
        deals.len() <= usize::MAX,
        optimizes(deals, base as int, merchant, r),
    ensures
        forall|a: int, b: int|
            0 <= a < r.deals@.len() && 0 <= b < r.deals@.len() && a != b && (#[trigger] r.deals@[a]).deal_type
                == DealType::Coupon ==> (#[trigger] r.deals@[b]).deal_type != DealType::Coupon,
        forall|a: int| 0 <= a < r.deals@.len() && !(#[trigger] r.deals@[a]).stackable ==> r.deals@.len() == 1,
        forall|a: int, b: int|
            0 <= a < r.application_order@.len() && 0 <= b < r.application_order@.len() && a != b
                ==> (#[trigger] r.application_order@[a])@ != (#[trigger] r.application_order@[b])@,
{
    let order = optimal_order(deals, base as int, merchant);
    lemma_optimal_stack_is_legal(deals, base, merchant);
    assert forall|a: int, b: int|
        0 <= a < r.deals@.len() && 0 <= b < r.deals@.len() && a != b && (#[trigger] r.deals@[a]).deal_type
            == DealType::Coupon implies (#[trigger] r.deals@[b]).deal_type != DealType::Coupon by {
        assert(r.deals@[a].same_as(&deals[order[a] as int]));
        assert(r.deals@[b].same_as(&deals[order[b] as int]));
        assert(deals[order[a] as int].deal_type == DealType::Coupon);
    }
    assert forall|a: int| 0 <= a < r.deals@.len() && !(#[trigger] r.deals@[a]).stackable implies r.deals@.len()
        == 1 by {
        assert(r.deals@[a].same_as(&deals[order[a] as int]));
        assert(!deals[order[a] as int].stackable);
    }
    assert forall|a: int, b: int|
        0 <= a < r.application_order@.len() && 0 <= b < r.application_order@.len() && a != b
            implies (#[trigger] r.application_order@[a])@ != (#[trigger] r.application_order@[b])@ by {
        assert(deals[order[a] as int].id@ != deals[order[b] as int].id@);
    }
}

} // verus!
