use vstd::prelude::*;

verus! {

/// Error taxonomy for a whole fetch operation.
///
/// Every fatal failure of a fetch is one of these three; an operation either
/// returns a complete result or one of them, never partial data.
#[derive(Debug)]
pub enum FetchError {
    /// The required API credential is absent from the configuration.
    ConfigError(String),
    /// A non-success HTTP status, a connection failure or a timeout.
    TransportError(String),
    /// The response body did not decode into the expected shape; carries the
    /// raw body for diagnosis.
    DecodeError(String),
}

impl FetchError {
    /// A description of the error for the presentation layer, which receives
    /// either a complete result or an error string.
    pub fn message(&self) -> (r: String)
        ensures
            self matches FetchError::ConfigError(s) ==> r@ == "missing credential: "@ + s@,
            self matches FetchError::TransportError(s) ==> r@ == "transport failure: "@ + s@,
            self matches FetchError::DecodeError(s) ==> r@ == "undecodable response body: "@ + s@,
    {
        match self {
            FetchError::ConfigError(s) => {
                let mut r = String::from_str("missing credential: ");
                r.append(s.as_str());
                r
            },
            FetchError::TransportError(s) => {
                let mut r = String::from_str("transport failure: ");
                r.append(s.as_str());
                r
            },
            FetchError::DecodeError(s) => {
                let mut r = String::from_str("undecodable response body: ");
                r.append(s.as_str());
                r
            },
        }
    }
}

} // verus!
