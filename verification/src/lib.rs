//! Verified core of the WAF operator console.
#![allow(unused_imports)]

use vstd::prelude::*;

pub mod catalog;
pub mod control;
pub mod correlate;
pub mod dashboard;
pub mod digest;
pub mod findings;
pub mod export;
pub mod fresh;
pub mod ga;
pub mod json;
pub mod lapi;
pub mod netaddr;
pub mod netguard;
pub mod number;
pub mod pattern;
pub mod persist;
pub mod routes;
pub mod rules;
pub mod server;
pub mod status;
pub mod stix;
pub mod text;
