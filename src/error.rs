//! The library's errors.

use vstd::prelude::*;

verus! {

/// Why a name, a document operation or a command was refused.
#[derive(Debug, Clone, PartialEq, Eq)]
pub enum ProfileError {
    /// A profile name with more than one dot; holds the name as given.
    InvalidName(String),
    /// The reserved name given where a single profile is meant; holds the name.
    ReservedName(String),
    /// No command was given.
    MissingCommand,
    /// A name segment with no entry in the document; holds the segment.
    NotFound(String),
    /// A name segment whose entry is not a table; holds the segment.
    NotATable(String),
    /// A child added under, or removed from, a profile that is a leaf; holds
    /// the parent's name.
    LeafConflict(String),
    /// A profile table whose path key is missing or not a string; holds the key.
    MissingKey(String),
    /// An environment variable in a path could not be looked up; holds its name.
    Expansion(String),
    /// The document text is not TOML; holds the parser's message.
    Parse(String),
    /// The document could not be printed as TOML; holds the printer's message.
    Render(String),
}

} // verus!
