//! The command surface of the crawler, reduced to the decisions each
//! command makes.  Argument parsing and all I/O stay outside the library;
//! each command type here carries the already-parsed inputs and exposes the
//! computation the command performs on plain values.

use vstd::prelude::*;

pub mod export;
pub mod fetch;
pub mod ls;

verus! {

/// The command-line entry point's namespace.  Argument parsing itself is
/// outside the library.
pub struct Cli {}

/// Prints the tool's version; carries no inputs.
pub struct Version {}

/// The commands the tool offers.
pub enum Commands {
    Export(export::Export),
    Fetch(fetch::Fetch),
    Ls(ls::Ls),
    Version(Version),
}

} // verus!
