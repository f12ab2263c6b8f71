use vstd::prelude::*;

verus! {

/// What a free-shipping coupon is worth, in cents.
pub const FREE_SHIPPING_VALUE: u64 = 1000;

/// How a coupon's `discount_value` is read.
#[derive(Debug, Clone, Copy, PartialEq, Eq, Structural)]
pub enum CouponDiscountType {
    /// Basis points of the order value, capped by `maximum_discount`.
    Percentage,
    /// A fixed amount in cents.
    Fixed,
    /// Shipping, worth `FREE_SHIPPING_VALUE`.
    FreeShipping,
    /// A kind this library does not price.
    Unsupported,
}

/// A merchant's coupon; amounts in cents, times in Unix seconds.
#[derive(Debug, Clone)]
pub struct Coupon {
    pub id: String,
    pub merchant_id: String,
    pub code: String,
    pub title: String,
    pub description: Option<String>,
    pub discount_type: CouponDiscountType,
    pub discount_value: Option<u64>,
    pub minimum_order: Option<u64>,
    pub maximum_discount: Option<u64>,
    pub valid_from: Option<i64>,
    pub valid_until: Option<i64>,
    pub usage_limit: Option<i32>,
    pub usage_count: Option<i32>,
    pub is_active: Option<bool>,
    pub source: String,
    pub affiliate_network: Option<String>,
    pub created_at: i64,
    pub updated_at: i64,
}

/// The outcome of trying a coupon on an order; amounts in cents.
#[derive(Debug, Clone)]
pub struct CouponTestResult {
    pub code: String,
    pub is_valid: bool,
    pub discount_applied: Option<u128>,
    pub final_price: i128,
}

/// The discount `c` gives on an order of `order_value` cents, or none when
/// the order is below the coupon's minimum or the coupon cannot be priced.
pub open spec fn coupon_discount(c: Coupon, order_value: int) -> Option<int> {
    if c.minimum_order.is_some() && order_value < c.minimum_order.unwrap() {
        None
    } else {
        match c.discount_type {
            CouponDiscountType::Percentage => match c.discount_value {
                Some(v) => {
                    let d = order_value * v / 10000;
                    match c.maximum_discount {
                        Some(m) => Some(if d < m { d } else { m as int }),
                        None => Some(d),
                    }
                },
                None => None,
            },
            CouponDiscountType::Fixed => match c.discount_value {
                Some(v) => Some(v as int),
                None => None,
            },
            CouponDiscountType::FreeShipping => Some(FREE_SHIPPING_VALUE as int),
            CouponDiscountType::Unsupported => None,
        }
    }
}

pub fn calculate_discount(coupon: &Coupon, order_value: u64) -> (r: Option<u128>)
    ensures
        r.is_some() == coupon_discount(*coupon, order_value as int).is_some(),
        r.is_some() ==> r.unwrap() == coupon_discount(*coupon, order_value as int).unwrap(),
        r.is_some() ==> r.unwrap() <= u64::MAX as int * u64::MAX as int / 10000,
{
    if let Some(min_order) = coupon.minimum_order {
        if order_value < min_order {
            return None;
        }
    }
    match coupon.discount_type {
        CouponDiscountType::Percentage => match coupon.discount_value {
            Some(v) => {
                assert(order_value * v <= u64::MAX as int * u64::MAX as int) by (nonlinear_arith)
                    requires
                        order_value <= u64::MAX,
                        v <= u64::MAX,
                ;
                assert(order_value * v / 10000 <= order_value * v) by (nonlinear_arith)
                    requires
                        order_value * v >= 0,
                ;
                proof {
                    vstd::arithmetic::div_mod::lemma_div_is_ordered(
                        order_value * v,
                        u64::MAX as int * u64::MAX as int,
                        10000,
                    );
                }
                let d = (order_value as u128) * (v as u128) / 10000;
                match coupon.maximum_discount {
                    Some(m) => Some(
                        if d < m as u128 {
                            d
                        } else {
                            m as u128
                        },
                    ),
                    None => Some(d),
                }
            },
            None => None,
        },
        CouponDiscountType::Fixed => match coupon.discount_value {
            Some(v) => Some(v as u128),
            None => None,
        },
        CouponDiscountType::FreeShipping => Some(FREE_SHIPPING_VALUE as u128),
        CouponDiscountType::Unsupported => None,
    }
}

/// Tries `coupon` on an order of `order_value` cents: valid when it gives a
/// discount, and the price after that discount (or the order value).
pub fn evaluate_coupon(coupon: &Coupon, order_value: u64) -> (r: CouponTestResult)
    ensures
        r.code == coupon.code,
        r.is_valid == coupon_discount(*coupon, order_value as int).is_some(),
        r.discount_applied.is_some() == r.is_valid,
        r.is_valid ==> r.discount_applied.unwrap() == coupon_discount(
            *coupon,
            order_value as int,
        ).unwrap(),
        r.final_price == order_value - match coupon_discount(*coupon, order_value as int) {
            Some(d) => d,
            None => 0,
        },
{
    let discount = calculate_discount(coupon, order_value);
    let amount: u128 = match discount {
        Some(d) => d,
        None => 0,
    };
    CouponTestResult {
        code: coupon.code.clone(),
        is_valid: discount.is_some(),
        discount_applied: discount,
        final_price: order_value as i128 - amount as i128,
    }
}

} // verus!
