//! Client library for the Muna platform: data types, wire formats and
//! the decision logic of predictions, with their contracts.

pub mod text;
pub mod dates;
pub mod dtype;
pub mod error;
pub mod status;
pub mod acceleration;
pub mod types;
pub mod params;
pub mod models;
pub mod delegate;
pub mod chat;
pub mod anthropic;
pub mod transfer;
pub mod remote;
pub mod cache;
pub mod conversation;
pub mod sse;
