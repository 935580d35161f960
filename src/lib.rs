//! Cached, periodically refreshed view of Uniswap V3 pool state taken from a
//! remote indexing service.

pub mod address;
pub mod assoc;
pub mod error;
pub mod graph_api;
pub mod maintenance;
pub mod pool_cache;
pub mod pool_fetching;
pub mod pool_index;
pub mod token_pair;

use vstd::prelude::*;

verus! {

#[verifier::external_type_specification]
#[verifier::external_body]
pub struct ExAnyhowError(anyhow::Error);

/// Relies on the alternate `Display` of `anyhow::Error` (`{:#}`), which
/// writes the error followed by its chain of causes, without backtrace.
#[verifier::external_body]
fn error_chain_text(err: &anyhow::Error) -> String {
    format!("{:#}", err)
}

/// Relies on `anyhow::Error::msg`: a new error whose message is `text`.
#[verifier::external_body]
fn error_from_text(text: String) -> anyhow::Error {
    anyhow::Error::msg(text)
}

/// anyhow errors cannot be cloned. This makes a new error whose message is
/// the formatted error with its inner causes, without backtrace.
pub fn clone_anyhow_error(err: &anyhow::Error) -> anyhow::Error {
    error_from_text(error_chain_text(err))
}

} // verus!
