//! A verified command-language interpreter for editing a sectioned
//! key/value configuration document from the command line.
//!
//! The crate groups a flat argument list into edit operations, decodes
//! each operation's action, section, key and value, and applies the
//! operations in order to an INI-style store, pruning sections that
//! become empty.

pub mod actions;
pub mod commands;
pub mod store;

pub use actions::Action;
pub use commands::Command;
pub use commands::into_commands;
pub use store::process_commands;
