//! Client-side core of a central-limit-order-book exchange API: a fixed-point
//! decimal type, the error taxonomy shared by all API calls, the market-order
//! pricing algorithm over order-book depth, and the pure parts of the typed
//! HTTP transport (default headers, per-call header overlay, URL building,
//! status classification).

pub mod decimal;
pub mod error;
pub mod http;
pub mod price;
