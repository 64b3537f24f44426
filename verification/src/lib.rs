//! Booking of postings against inventory, as Beancount does it.
pub mod book;
pub mod categorize;
pub mod collections;
pub mod decimal;
pub mod errors;
pub mod internal;
pub mod laws;
pub mod ledger;
pub mod interpolate;
pub mod loader;
pub mod order;
pub mod parse;
pub mod positions;
pub mod reductions;
pub mod render;
pub mod text;
pub mod tolerance;
pub mod types;
