//! A line-oriented "is this number prime?" protocol: arbitrary-precision
//! primality testing, request validation, response encoding, a per-line
//! session step, and the bookkeeping of a bounded worker pool.

pub mod bignum;
pub mod oracle;
pub mod pool;
pub mod protocol;
pub mod request;
