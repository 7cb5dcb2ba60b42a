//! The host application's configuration surface, as plain values.  The
//! binary that parses command-line arguments and environment variables
//! builds this from its own argument type.

use vstd::prelude::*;

verus! {

/// Startup configuration for the host application.
#[derive(Debug)]
pub struct Config {
    /// Disable ANSI colour in log output.
    pub no_ansi: bool,
    /// Connection string of the backing database.
    pub database_url: String,
    /// Upper bound on pooled database connections.
    pub max_connections: u32,
    /// TCP port the server listens on.
    pub port: u16,
    /// Directory holding page templates.
    pub templates: String,
    /// Directory holding static assets.
    pub asset_dir: String,
    /// Revert everything and reapply all revisions at startup; can cause
    /// data loss.
    pub reset_database: bool,
    /// Revert this many revisions before migrating, when given.
    pub revert_database: Option<usize>,
}

} // verus!
