use vstd::prelude::*;
use crate::errors::FetchError;

verus! {

/// Turns the outcome of a credential lookup (the caller reads the process
/// environment or another configuration store) into either the credential or
/// a `ConfigError`.
///
/// A fetch operation calls this before issuing any request, so a missing
/// credential is surfaced before any network call is made.
pub fn credential_from(key: Option<String>) -> (r: Result<String, FetchError>)
    ensures
        key matches Some(k) ==> (r matches Ok(c) && c == k),
        key is None ==> (r matches Err(e) && e is ConfigError),
{
    match key {
        Some(k) => Ok(k),
        None => Err(FetchError::ConfigError(String::from_str(
            "API key not present in the configuration",
        ))),
    }
}

} // verus!
