//! Verified core of a transit data fetcher: paginated listing of bus stops
//! and bus routes, the stop/route join, and per-stop arrival estimates.
//!
//! Network I/O, configuration loading and serialisation live outside this
//! crate; the library receives plain values (records already decoded from the
//! wire), and every aggregation step over them is verified.

pub mod errors;
pub mod config;
pub mod pagination;
pub mod arrivals;
pub mod aggregate;
pub mod join_laws;
