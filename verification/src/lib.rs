//! A verified planning core for a dotfiles installer.
//!
//! The engine mirrors a managed source tree into the home directory by
//! replacing target files with symbolic links, moving anything that was
//! already there into a timestamped backup directory. The library computes
//! and certifies the plan of filesystem actions; an unverified shell around
//! it performs the actual I/O.

use vstd::prelude::*;

pub mod dotfile_manager;
pub mod model;
pub mod paths;
pub mod timefmt;
pub mod tree;

verus! {

/// The error kinds the library reports.
#[derive(Debug, PartialEq, Eq)]
pub enum DotError {
    /// A filesystem operation failed.
    Io,
    /// The configuration document was missing or malformed.
    Config,
    /// An input value was unusable (a path without a file name, a name that
    /// cannot be represented).
    InvalidInput,
}

} // verus!

