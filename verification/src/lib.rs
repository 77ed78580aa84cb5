//! Library core of the Unleashed guest-pass manager: configuration parsing,
//! the guest-pass model and the controller's XML replies, the daily
//! rotation schedule, and the decisions behind the HTTP handlers.
use vstd::prelude::*;

pub mod clock;
pub mod decimal;
pub mod environment;
pub mod handlers;
pub mod models;
pub mod tasks;
pub mod text;
pub mod unifi_api;
pub mod unleashed_api;
pub mod xml;

verus! {

} // verus!
