use vstd::prelude::*;

verus! {

/// Where a partnership application stands.
#[derive(Debug, Clone, Copy, PartialEq, Eq, Structural)]
pub enum PartnershipStatus {
    Pending,
    UnderReview,
    Approved,
    Rejected,
    Active,
    Suspended,
}

/// Paging and filters for listing deals.
#[derive(Debug, Clone)]
pub struct DealsQuery {
    pub limit: Option<i64>,
    pub offset: Option<i64>,
    pub search: Option<String>,
    pub category: Option<String>,
    pub merchant: Option<String>,
}

#[derive(Debug, Clone)]
pub struct CreateUser {
    pub auth0_id: String,
    pub username: String,
    pub email: Option<String>,
}

#[derive(Debug, Clone)]
pub struct UpdateUser {
    pub username: String,
    pub email: Option<String>,
}

} // verus!
