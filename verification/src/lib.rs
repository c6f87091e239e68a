//! Credential checking for a small HTTP service: accounts with hashed
//! passwords, a reversible credential token, and the decisions taken at
//! signup, at login and on every protected request.

pub mod auth;
pub mod codec;
pub mod header;
pub mod models;
pub mod repository;
pub mod routes;
pub mod text;
