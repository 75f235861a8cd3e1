//! The decisions of an HTTP failover proxy.

use vstd::prelude::*;

pub mod body;
pub mod clock;
pub mod config;
pub mod credentials;
pub mod headers;
pub mod laws;
pub mod metrics;
pub mod mgmt;
pub mod outcomes;
pub mod proxy;
pub mod rate;
pub mod secrets;
pub mod table;
pub mod text;

verus! {

} // verus!
