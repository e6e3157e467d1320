//! Listing commands: show the distinct values the store knows for one
//! field.  Reading the store is outside the library; each command takes
//! the distinct values as input and returns the lines to print.

use vstd::prelude::*;

pub mod arch;
pub mod os;
pub mod vendors;

verus! {

/// The listing subcommands.
pub enum Commands {
    Arch(arch::Arch),
    Os(os::Os),
    Vendor(vendors::Vendor),
}

impl Commands {
    /// The store field whose distinct values this listing shows.
    pub fn field(&self) -> (r: String)
        ensures
            r@ == match self {
                Commands::Arch(_) => "architecture"@,
                Commands::Os(_) => "os"@,
                Commands::Vendor(_) => "vendor"@,
            },
    {
        match self {
            Commands::Arch(_) => String::from_str("architecture"),
            Commands::Os(_) => String::from_str("os"),
            Commands::Vendor(_) => String::from_str("vendor"),
        }
    }

    /// Turns the distinct values read from the store into the lines to
    /// print: every value as it stands, except that the vendor listing
    /// keeps only the registered vendors.
    pub fn run(self, distinct: Vec<String>) -> (r: Vec<String>)
        ensures
            r.deep_view() == match self {
                Commands::Arch(_) => distinct.deep_view(),
                Commands::Os(_) => distinct.deep_view(),
                Commands::Vendor(_) => vendors::supported_only(distinct.deep_view()),
            },
    {
        match self {
            Commands::Arch(cmd) => cmd.run(distinct),
            Commands::Os(cmd) => cmd.run(distinct),
            Commands::Vendor(cmd) => cmd.run(distinct),
        }
    }
}

/// List stored JVM data.
pub struct Ls {
    pub command: Commands,
}

impl Ls {
    /// Delegates to the selected listing subcommand.
    pub fn run(self, distinct: Vec<String>) -> (r: Vec<String>)
        ensures
            r.deep_view() == match self.command {
                Commands::Arch(_) => distinct.deep_view(),
                Commands::Os(_) => distinct.deep_view(),
                Commands::Vendor(_) => vendors::supported_only(distinct.deep_view()),
            },
    {
        self.command.run(distinct)
    }
}

} // verus!
