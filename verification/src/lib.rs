//! A username/password authentication core: salted memory-hard password
//! hashing, signed time-bounded session tokens, a request-authentication
//! gate, and the credential service that orchestrates them over a user store.

pub mod b64;
pub mod claims;
pub mod clock;
pub mod config;
pub mod error;
pub mod jwt;
pub mod middleware;
pub mod models;
pub mod numfmt;
pub mod password;
pub mod repository;
pub mod services;
pub mod strutil;
