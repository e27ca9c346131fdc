//! Reusable EVM asset composition for wallets and dapps: amount conversion, asset rows,
//! balance reads, unsigned transfer construction and transaction-history decoration.
//!
//! The crate never signs, requests approval or broadcasts. What it asks of the chain provider
//! it hands out as a request, and what comes back it takes as an event.

pub mod text;
pub mod digits;
pub mod uint;
pub mod hextext;
pub mod address;
pub mod units;
pub mod json;
pub mod wire;
pub mod assets;
pub mod tokens;
pub mod codec;
pub mod budget;
pub mod depinit;
pub mod verified;
pub mod rows;
pub mod transfer;
pub mod replies;
pub mod provider;
pub mod history;
pub mod service;
