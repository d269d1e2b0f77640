//! A small wake-on-LAN remote server library.
//!
//! The library holds the verified core of a tiny text-framed request
//! protocol: a parser that turns raw connection bytes into a structured
//! request, a dispatcher that maps a request to a response or to a
//! wake-up action, and a responder that renders responses as wire bytes.
//! The surrounding process (socket handling, configuration loading,
//! packet transmission) hands this library plain byte values and writes
//! back what it returns.

pub mod config;
pub mod dispatch;
pub mod encode;
pub mod notify;
pub mod request;
pub mod response;
