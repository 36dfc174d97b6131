//! Subscription lifecycle and event delivery for a query service whose
//! results must reach the caller on the caller's own thread.
#![allow(non_snake_case)]

pub mod decimal;
pub mod delivery;
pub mod delivery_laws;
pub mod error;
pub mod json;
pub mod laws;
pub mod order;
pub mod payload;
pub mod registry;
pub mod service;
pub mod text;
