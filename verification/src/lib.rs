//! Wallet-scouting core: exact money types, chain identities, FIFO ledger,
//! buy classification, decoders and input parsing, each with its contract.

pub mod amount;
pub mod error;
pub mod order;
pub mod text;
pub mod identity;
pub mod key_debug;
pub mod sorted_map;
pub mod trust;
pub mod lot;
pub mod fifo;
pub mod ledger_laws;
pub mod raw_payload;
pub mod decoder;
pub mod bytes;
pub mod bonding_curve_buy;
pub mod v2_swap;
pub mod episode;
pub mod ratio;
pub mod analytics_laws;
pub mod attribution;
pub mod classify;
pub mod buyer_intersect;
pub mod engine_laws;
pub mod api;
pub mod normalized_source;
pub mod providers;
pub mod watermark;
pub mod chars;
pub mod input;
pub mod input_laws;
pub mod config;
pub mod output;
