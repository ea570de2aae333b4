//! Governance of the skills that an A2A Agent Card advertises.
pub mod a2a;
pub mod card;
pub mod card_laws;
pub mod detect;
pub mod generated;
pub mod governor;
pub mod laws;
pub mod policy;
pub mod text;
pub mod usage_laws;
