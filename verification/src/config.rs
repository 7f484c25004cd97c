//! Immutable process-wide settings, read once at startup and shared by
//! read-only reference.

use vstd::prelude::*;

verus! {

/// Settings for one process run. The environment parsing that fills this in
/// lives outside the library; the fields arrive here as plain values.
pub struct Config {
    /// Shared secret that one-time codes are derived from.
    pub auth_secret: String,
    /// Root directory that every file operation is confined to.
    pub file_directory: String,
    /// Network bind address.
    pub address: String,
    /// Network bind port.
    pub port: u16,
    /// Maximum accepted upload size, in the transport's own notation.
    pub max_file_size: String,
    /// Operator-configured bypass: when set, login skips verification and
    /// returns a fixed sentinel instead of a real token. This disables
    /// authentication and must never be enabled on an exposed instance.
    pub no_auth: bool,
}

} // verus!
