//! An instrumented HTTP request engine: it turns the description of an API
//! call into a request ready to be sent, keeps the cookies of the answers,
//! times the phases of the exchange from what the transport reports, and
//! turns the answer into a result with decoded body and stats.
//!
//! Everything here is verified with Verus. Sending the request, reading the
//! answer and storing the cookie jar are left to the caller.

pub mod adapters;
pub mod cookies;
pub mod error;
pub mod http_request;
pub mod schemas;
pub mod text;
pub mod trace;
