//! The configuration of the daemon.

use vstd::prelude::*;

verus! {

/// What the command line configures.
#[derive(Debug)]
pub struct CliOptions {
    /// The directory that takes the transcripts.
    pub output_dir: String,
    /// The address of the secret store.
    pub vault_server: String,
    /// The file that holds the bootstrap token.
    pub vault_token_file: String,
    /// The secret engine that issues the inventory credentials.
    pub vault_secret_engine: String,
    /// The role for which they are issued.
    pub vault_role: String,
    /// The project whose devices are watched.
    pub project_id: String,
}

} // verus!
