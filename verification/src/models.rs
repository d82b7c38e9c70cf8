//! Records that the normalisation rules produce.

use vstd::prelude::*;
use crate::json::JsonNumber;

verus! {

/// One CrowdSec alert as the dashboard shows it. The coordinates are the JSON
/// numbers that the source held, kept as they were read.
pub struct Alert {
    pub id: String,
    pub ip: String,
    pub country: String,
    pub city: String,
    pub latitude: Option<JsonNumber>,
    pub longitude: Option<JsonNumber>,
    pub scenario: String,
    pub decision_type: String,
    pub value: String,
    pub created_at: String,
    pub count: i64,
    pub as_name: String,
    pub origin: String,
    pub scope: String,
    pub duration: String,
    pub until: String,
}

/// One active CrowdSec decision.
pub struct ActiveBan {
    pub id: String,
    pub ip: String,
    pub value: String,
    pub country: String,
    pub scenario: String,
    pub origin: String,
    pub scope: String,
    pub duration: String,
    pub until: String,
    pub ban_type: String,
    pub created_at: String,
}

} // verus!
