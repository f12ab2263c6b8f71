//! Deal stacking, card benefit and offer ranking, with fixed-point money.
//!
//! Money amounts are integers: prices entered by callers are in cents. The
//! stacking engine keeps running prices exact, as integers of any size, and
//! rounds once, half to even, at the end. Percentages are in basis points
//! (hundredths of a percent) and scores in thousandths. Times
//! are plain numbers handed in by the caller, so every result depends on the
//! arguments alone.
pub mod analyzer;
pub mod cache;
pub mod card;
pub mod coupon;
pub mod deal;
pub mod events;
pub mod exact;
pub mod models;
pub mod money;
pub mod ranking;
pub mod stacking;
