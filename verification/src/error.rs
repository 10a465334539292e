//! The error taxonomy shared by every operation of the client.
//!
//! Callers must be able to tell three situations apart: the exchange was never
//! authoritatively reached (`Transport`), the exchange answered with a
//! non-success status (`Api`, carrying the status and the raw body text), and
//! a domain rule failed locally (`InvalidOrder`, raised by the pricing
//! calculator when the book cannot satisfy the requested notional).

use vstd::prelude::*;

verus! {

#[derive(Debug, PartialEq, Eq)]
pub enum ClobError {
    /// Connection, TLS, timeout, or JSON encode/decode failure: nothing was
    /// authoritatively answered by the server, or the answer was corrupt.
    Transport(String),
    /// The server responded with a definitive non-success status. The body is
    /// kept verbatim as text, never reinterpreted as JSON.
    Api { status: u16, message: String },
    /// The order book cannot satisfy the requested notional amount.
    InvalidOrder(String),
}

} // verus!
