//! A sealed-bid, single-round, second-price auction engine.
//!
//! Participants place one bid each on an auction that is in progress. Once the
//! auction is closed the highest bidder wins and owes the amount of the
//! second-highest bid. Every rule of the engine is stated as a contract and
//! proved; persistence is left to the caller, who hands records in and takes
//! records back.

pub mod contract;
pub mod engine;
pub mod error;
pub mod index;
pub mod model;
pub mod msg;
pub mod state;
pub mod store;
pub mod theorems;

pub use crate::error::ContractError;
