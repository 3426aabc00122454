//! Crowdfunding sale engine for tokenized assets: a sale is opened over a batch of
//! minted items, buyers commit funds for them, and a batch-limited settlement either
//! refunds every buyer or hands the items out and pays the proceeds.

pub mod accounting;
pub mod auction;
pub mod coin;
pub mod conservation;
pub mod contract;
pub mod decimal;
pub mod entry;
pub mod error;
pub mod expiration;
pub mod handover;
pub mod history;
pub mod laws;
pub mod ledger;
pub mod merge;
pub mod msg;
pub mod order;
pub mod permissioning;
pub mod primitive;
pub mod primitive_store;
pub mod rates;
pub mod settlement;
pub mod settling;
pub mod splitter;
pub mod state;
pub mod text;
pub mod tokens;
pub mod window;
