//! Signing of time-limited storage URLs and the claim sets of service-account
//! tokens.
pub mod text;
pub mod headers;
pub mod options;
pub mod encoding;
pub mod signer;
pub mod auth;
pub mod laws;
