use vstd::prelude::*;

verus! {

/// The topic names events are published under.
#[derive(Debug, Clone)]
pub struct KafkaTopics {
    pub deals: String,
    pub prices: String,
    pub user_events: String,
    pub notifications: String,
    pub inventory: String,
    pub analytics: String,
}

impl Default for KafkaTopics {
    fn default() -> (r: Self)
        ensures
            r.deals@ == "dealpal.deals"@,
            r.prices@ == "dealpal.prices"@,
            r.user_events@ == "dealpal.user.events"@,
            r.notifications@ == "dealpal.notifications"@,
            r.inventory@ == "dealpal.inventory"@,
            r.analytics@ == "dealpal.analytics"@,
    {
        KafkaTopics {
            deals: String::from_str("dealpal.deals"),
            prices: String::from_str("dealpal.prices"),
            user_events: String::from_str("dealpal.user.events"),
            notifications: String::from_str("dealpal.notifications"),
            inventory: String::from_str("dealpal.inventory"),
            analytics: String::from_str("dealpal.analytics"),
        }
    }
}

#[derive(Debug, Clone, Copy, PartialEq, Eq, Structural)]
pub enum DealEventType {
    DealCreated,
    DealUpdated,
    DealExpired,
    DealActivated,
    DealDeactivated,
    UserSubmitted,
}

#[derive(Debug, Clone, Copy, PartialEq, Eq, Structural)]
pub enum PriceChangeType {
    Increase,
    Decrease,
    FlashSale,
    RegularPriceRestored,
}

#[derive(Debug, Clone, Copy, PartialEq, Eq, Structural)]
pub enum AvailabilityStatus {
    InStock,
    LowStock,
    OutOfStock,
    Backorder,
    Discontinued,
}

#[derive(Debug, Clone, Copy, PartialEq, Eq, Structural)]
pub enum UserEventType {
    PageView,
    DealView,
    DealClick,
    DealActivate,
    Search,
    FilterApply,
    WishlistAdd,
    WishlistRemove,
    NotificationClick,
    PurchaseComplete,
    UserSignup,
    UserLogin,
    UserLogout,
}

#[derive(Debug, Clone, Copy, PartialEq, Eq, Structural)]
pub enum Platform {
    Web,
    MobileApp,
    BrowserExtension,
}

/// Something a user did; `timestamp` in Unix milliseconds, `metadata` as
/// key and value pairs.
#[derive(Debug, Clone)]
pub struct UserEvent {
    pub event_id: String,
    pub timestamp: i64,
    pub user_id: Option<String>,
    pub session_id: String,
    pub event_type: UserEventType,
    pub platform: Platform,
    pub deal_id: Option<String>,
    pub product_id: Option<String>,
    pub search_query: Option<String>,
    pub category: Option<String>,
    pub page_url: Option<String>,
    pub referrer: Option<String>,
    pub user_agent: Option<String>,
    pub ip_address: Option<String>,
    pub metadata: Vec<(String, String)>,
}

} // verus!
