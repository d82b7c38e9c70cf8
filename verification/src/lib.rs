//! Verified core of the CrowdSec Map backend: configuration parsing, alert and
//! decision normalisation, history aggregation and security report rules.

pub mod text;
pub mod json;
pub mod patterns;
pub mod models;
pub mod normaliser;
pub mod time;
pub mod parsers;
pub mod config;
pub mod logger;
pub mod aggregate;
pub mod history;
pub mod decisions;
pub mod protection;
pub mod investigation;
pub mod access_log;
pub mod security_report;
pub mod cscli;
pub mod geodb;
pub mod attacks;
pub mod reputation;
pub mod query;
pub mod os_tools;
