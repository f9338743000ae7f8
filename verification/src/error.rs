//! The shared error type of the domain layer.

use vstd::prelude::*;

use crate::identity::{ChainFamily, ChainKey};
use crate::key_debug::{chain_keys_debug, chain_keys_debug_text, family_debug_name};
use crate::text::{decimal, text_with_number};

verus! {

/// Errors shared by the domain modules of this crate.
#[derive(Debug)]
pub enum ScoutError {
    /// A provider port has no configured backend; returned instead of an
    /// empty successful result.
    ConfigurationRequired { port: &'static str, env_var: &'static str },
    /// An address string is not valid for the given chain family.
    InvalidAddress { family: ChainFamily, reason: String },
    /// A bare EVM address resolved to more than one enabled chain.
    AmbiguousChain { candidates: Vec<ChainKey> },
    /// An asset's decimals are unknown or unsupported; never defaulted.
    UnsupportedDecimals { decimals: Option<u8> },
    /// Checked arithmetic overflowed; never a silent wraparound or panic.
    ArithmeticOverflow { context: &'static str },
}

/// The message of an error; an ambiguous chain ends with its candidates as
/// `chain_keys_debug` writes them.
pub open spec fn scout_error_text(e: ScoutError) -> Seq<char> {
    match e {
        ScoutError::ConfigurationRequired { port, env_var } => "configuration required for port `"@
            + port@ + "` (set "@ + env_var@ + ")"@,
        ScoutError::InvalidAddress { family, reason } => "invalid address for "@
            + family_debug_name(family) + ": "@ + reason@,
        ScoutError::AmbiguousChain { candidates } => "ambiguous chain: address matches "@
            + chain_keys_debug(candidates@),
        ScoutError::UnsupportedDecimals { decimals } => match decimals {
            Some(d) => "unsupported or unknown decimals for asset (decimals=Some("@ + decimal(
                d as nat,
            ) + "))"@,
            None => "unsupported or unknown decimals for asset (decimals=None)"@,
        },
        ScoutError::ArithmeticOverflow { context } => "arithmetic overflow: "@ + context@,
    }
}

impl ScoutError {
    /// The human-readable message, exactly `scout_error_text`.
    pub fn to_display_string(&self) -> (s: String)
        ensures
            s@ == scout_error_text(*self),
    {
        match self {
            ScoutError::ConfigurationRequired { port, env_var } => {
                let s = String::from_str("configuration required for port `");
                let s = s.concat(port);
                let s = s.concat("` (set ");
                let s = s.concat(env_var);
                s.concat(")")
            },
            ScoutError::InvalidAddress { family, reason } => {
                let name = match family {
                    ChainFamily::Solana => "Solana",
                    ChainFamily::Evm => "Evm",
                };
                let s = String::from_str("invalid address for ");
                let s = s.concat(name);
                let s = s.concat(": ");
                s.concat(reason.as_str())
            },
            ScoutError::AmbiguousChain { candidates } => {
                let t = chain_keys_debug_text(candidates);
                String::from_str("ambiguous chain: address matches ").concat(t.as_str())
            },
            ScoutError::UnsupportedDecimals { decimals } => match decimals {
                Some(d) => text_with_number(
                    "unsupported or unknown decimals for asset (decimals=Some(",
                    *d as u128,
                    "))",
                ),
                None => String::from_str(
                    "unsupported or unknown decimals for asset (decimals=None)",
                ),
            },
            ScoutError::ArithmeticOverflow { context } => {
                String::from_str("arithmetic overflow: ").concat(context)
            },
        }
    }
}

} // verus!
