//! Policy configuration, as the policy definition's schema describes it.
pub mod config;
