//! A verified core for a small self-hosted file store: one-time-code login,
//! opaque session tokens, a bearer-credential request guard, and file
//! operations (list, upload, download, rename, delete) confined to a single
//! root directory.

pub mod auth;
pub mod config;
pub mod file_methods;
pub mod guards;
pub mod paths;
pub mod tokens;
