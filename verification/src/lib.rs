//! Style-check engine: structural rules over parsed source files, with
//! offset-exact automatic fixes, plus the verified text transformations
//! used by the surrounding maintenance tools.

use vstd::prelude::*;

pub mod adjacency;
pub mod badge;
pub mod engine;
pub mod fix_synth;
pub mod hooks;
pub mod inline_rule;
pub mod labels;
pub mod laws;
pub mod manifest_edit;
pub mod patch;
pub mod placeholders;
pub mod report;
pub mod smells;
pub mod text;
pub mod tokens;
pub mod version_bump;
pub mod workspace;

verus! {

/// Mode the engine runs in: report violations, or rewrite files to fix them.
#[derive(Clone, Copy, PartialEq, Eq, Structural, Debug)]
pub enum Command {
    Assert,
    Format,
}

/// Which checks are enabled, and in which mode the engine runs.
#[derive(Clone, Copy, Debug)]
pub struct Config {
    pub command: Command,
    pub impl_follows_type: bool,
    pub embed_simple_vars: bool,
}

impl Default for Config {
    /// Assert mode with every rule enabled.
    fn default() -> (c: Config)
        ensures
            c.command == Command::Assert,
            c.impl_follows_type,
            c.embed_simple_vars,
    {
        Config { command: Command::Assert, impl_follows_type: true, embed_simple_vars: true }
    }
}

} // verus!
