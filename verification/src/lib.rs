//! The authentication and authorization core of a case-management backend:
//! password verification against salted digests, signed short-lived access
//! tokens, persisted long-lived refresh tokens with rotation and
//! revocation, and role-based access guards.
//!
//! The token store is modeled as the sequence of its rows, every flow is a
//! function of explicit inputs — credential, store, key, clock — and the
//! signing and digest primitives of the outside crates are the only trusted
//! boundary (see `trusted`).

pub mod auth;
pub mod b64;
pub mod claims;
pub mod dec;
pub mod errors;
pub mod hexcodec;
pub mod jwt;
pub mod models;
pub mod role;
pub mod scan;
pub mod service_options;
pub mod trusted;
pub mod user_token_repository;
pub mod user_token_service;
pub mod users;
