//! Weighted card selection and redemption bookkeeping for card packs.
//!
//! A pack holds a table of weighted cards (`PackConfig`). Holders of a
//! redemption right first request draws, which are recorded as pending in a
//! per-right `ProvingProcess`, and later claim each pending draw exactly once.

pub mod account_type;
pub mod admin;
pub mod codec;
pub mod error;
pub mod pack_config;
pub mod pack_set;
pub mod proving_process;
pub mod redeem;
