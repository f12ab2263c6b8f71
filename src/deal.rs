use vstd::prelude::*;

verus! {

/// The kind of a catalog deal.
#[derive(Debug, Clone, Copy, PartialEq, Eq, Hash, Structural)]
pub enum DealType {
    Coupon,
    Cashback,
    PriceDiscount,
    BankOffer,
    WalletOffer,
    FlashSale,
    BuyOneGetOne,
    FreeShipping,
    GiftCard,
    Referral,
}

/// How soon a cashback reaches the user.
#[derive(Debug, Clone, Copy, PartialEq, Eq, Hash, Structural)]
pub enum CashbackType {
    Instant,
    Wallet,
    BankTransfer,
    RewardPoints,
    Vouchers,
}

/// A deal of the catalog.
///
/// Prices are in cents; `discount_percentage`, `cashback_rate` and
/// `success_rate` are in basis points (95% is 9500); times are Unix seconds.
#[derive(Debug, Clone)]
pub struct Deal {
    pub id: i32,
    pub external_id: String,
    pub title: String,
    pub description: Option<String>,
    pub original_price: u64,
    pub discounted_price: Option<u64>,
    pub discount_percentage: Option<u32>,
    pub currency: String,
    pub product_url: String,
    pub image_url: Option<String>,
    pub merchant: String,
    pub category: Option<String>,
    pub deal_type: DealType,
    pub coupon_code: Option<String>,
    pub cashback_rate: Option<u32>,
    pub cashback_type: Option<CashbackType>,
    pub minimum_order_value: Option<u64>,
    pub maximum_discount: Option<u64>,
    pub valid_from: i64,
    pub valid_until: Option<i64>,
    pub is_active: bool,
    pub is_verified: bool,
    pub verification_date: Option<i64>,
    pub usage_count: u32,
    pub success_rate: Option<u32>,
    pub tags: Option<Vec<String>>,
    pub created_at: i64,
    pub updated_at: i64,
}

/// A request to check one deal, optionally against a page.
#[derive(Debug, Clone)]
pub struct DealValidationRequest {
    pub deal_id: i32,
    pub test_url: Option<String>,
}

/// A request to gather deals from some sources.
#[derive(Debug, Clone)]
pub struct DealAggregationRequest {
    pub sources: Vec<String>,
    pub categories: Option<Vec<String>>,
    pub merchants: Option<Vec<String>>,
    pub max_deals_per_source: Option<i32>,
}

/// What a gathering run found.
#[derive(Debug, Clone)]
pub struct DealAggregationResponse {
    pub total_deals_found: i32,
    pub new_deals_added: i32,
    pub updated_deals: i32,
    pub invalid_deals: i32,
    pub processing_time_ms: i64,
    pub sources_processed: Vec<String>,
}

/// Whole days in `secs`, truncated toward zero.
pub open spec fn whole_days(secs: int) -> int {
    if secs >= 0 {
        secs / 86400
    } else {
        -((-secs) / 86400)
    }
}

impl Deal {
    /// The amount saved, in cents: the price cut, else the percentage of the
    /// original price (rounded down), else nothing.
    pub open spec fn savings_spec(&self) -> int {
        match self.discounted_price {
            Some(d) => self.original_price - d,
            None => match self.discount_percentage {
                Some(p) => self.original_price * p / 10000,
                None => 0,
            },
        }
    }

    /// The price paid, in cents.
    pub open spec fn final_price_spec(&self) -> int {
        match self.discounted_price {
            Some(d) => d as int,
            None => self.original_price - self.savings_spec(),
        }
    }

    pub fn calculate_savings(&self) -> (r: i128)
        ensures
            r == self.savings_spec(),
            -(u64::MAX as int) <= r <= u64::MAX as int * u32::MAX as int / 10000,
    {
        match self.discounted_price {
            Some(d) => self.original_price as i128 - d as i128,
            None => match self.discount_percentage {
                Some(p) => {
                    assert(self.original_price * p <= u64::MAX as int * u32::MAX as int) by (
                    nonlinear_arith)
                        requires
                            self.original_price <= u64::MAX,
                            p <= u32::MAX,
                    ;
                    assert(self.original_price * p / 10000 <= self.original_price * p) by (
                    nonlinear_arith)
                        requires
                            self.original_price * p >= 0,
                    ;
                    proof {
                        vstd::arithmetic::div_mod::lemma_div_is_ordered(
                            self.original_price * p,
                            u64::MAX as int * u32::MAX as int,
                            10000,
                        );
                    }
                    ((self.original_price as u128) * (p as u128) / 10000) as i128
                },
                None => 0,
            },
        }
    }

    pub fn get_final_price(&self) -> (r: i128)
        ensures
            r == self.final_price_spec(),
            -(u64::MAX as int * u32::MAX as int / 10000) <= r <= u64::MAX,
    {
        match self.discounted_price {
            Some(d) => d as i128,
            None => self.original_price as i128 - self.calculate_savings(),
        }
    }

    /// The deal has an end that lies before `now`.
    pub fn is_expired(&self, now: i64) -> (r: bool)
        ensures
            r == (self.valid_until.is_some() && self.valid_until.unwrap() < now),
    {
        match self.valid_until {
            Some(expiry) => expiry < now,
            None => false,
        }
    }

    /// Whole days from `now` to the deal's end, truncated toward zero; none
    /// when the deal does not end.
    pub fn days_until_expiry(&self, now: i64) -> (r: Option<i64>)
        ensures
            r.is_some() == self.valid_until.is_some(),
            r.is_some() ==> r.unwrap() == whole_days(self.valid_until.unwrap() - now),
    {
        match self.valid_until {
            Some(expiry) => {
                let diff: i128 = expiry as i128 - now as i128;
                let days: i128 = if diff >= 0 {
                    diff / 86400
                } else {
                    -((-diff) / 86400)
                };
                Some(days as i64)
            },
            None => None,
        }
    }
}


/// A copy of a list of texts.
pub fn copy_texts(v: &Vec<String>) -> (r: Vec<String>)
    ensures
        r@ == v@,
{
    let mut r: Vec<String> = Vec::new();
    let mut i: usize = 0;
    while i < v.len()
        invariant
            i <= v@.len(),
            r@ == v@.take(i as int),
        decreases v@.len() - i,
    {
        r.push(v[i].clone());
        i = i + 1;
        assert(r@ =~= v@.take(i as int));
    }
    assert(r@ =~= v@);
    r
}

fn copy_text(o: &Option<String>) -> (r: Option<String>)
    ensures
        r == *o,
{
    match o {
        Some(t) => Some(t.clone()),
        None => None,
    }
}

impl Deal {
    /// `self` holds the same values as `other`.
    pub open spec fn same_as(&self, other: &Deal) -> bool {
        &&& self.id == other.id
        &&& self.external_id == other.external_id
        &&& self.title == other.title
        &&& self.description == other.description
        &&& self.original_price == other.original_price
        &&& self.discounted_price == other.discounted_price
        &&& self.discount_percentage == other.discount_percentage
        &&& self.currency == other.currency
        &&& self.product_url == other.product_url
        &&& self.image_url == other.image_url
        &&& self.merchant == other.merchant
        &&& self.category == other.category
        &&& self.deal_type == other.deal_type
        &&& self.coupon_code == other.coupon_code
        &&& self.cashback_rate == other.cashback_rate
        &&& self.cashback_type == other.cashback_type
        &&& self.minimum_order_value == other.minimum_order_value
        &&& self.maximum_discount == other.maximum_discount
        &&& self.valid_from == other.valid_from
        &&& self.valid_until == other.valid_until
        &&& self.is_active == other.is_active
        &&& self.is_verified == other.is_verified
        &&& self.verification_date == other.verification_date
        &&& self.usage_count == other.usage_count
        &&& self.success_rate == other.success_rate
        &&& self.tags.is_some() == other.tags.is_some()
        &&& (self.tags.is_some() ==> self.tags.unwrap()@ == other.tags.unwrap()@)
        &&& self.created_at == other.created_at
        &&& self.updated_at == other.updated_at
    }

    /// A field-by-field copy.
    pub fn duplicate(&self) -> (r: Deal)
        ensures
            r.same_as(self),
    {
        let tags = match &self.tags {
            Some(t) => Some(copy_texts(t)),
            None => None,
        };
        Deal {
            id: self.id,
            external_id: self.external_id.clone(),
            title: self.title.clone(),
            description: copy_text(&self.description),
            original_price: self.original_price,
            discounted_price: self.discounted_price,
            discount_percentage: self.discount_percentage,
            currency: self.currency.clone(),
            product_url: self.product_url.clone(),
            image_url: copy_text(&self.image_url),
            merchant: self.merchant.clone(),
            category: copy_text(&self.category),
            deal_type: self.deal_type,
            coupon_code: copy_text(&self.coupon_code),
            cashback_rate: self.cashback_rate,
            cashback_type: self.cashback_type,
            minimum_order_value: self.minimum_order_value,
            maximum_discount: self.maximum_discount,
            valid_from: self.valid_from,
            valid_until: self.valid_until,
            is_active: self.is_active,
            is_verified: self.is_verified,
            verification_date: self.verification_date,
            usage_count: self.usage_count,
            success_rate: self.success_rate,
            tags,
            created_at: self.created_at,
            updated_at: self.updated_at,
        }
    }
}

} // verus!
