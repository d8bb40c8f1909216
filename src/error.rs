use vstd::prelude::*;

verus! {

/// Everything that can go wrong while opening a container or decoding its
/// game-object tables. Each one ends the operation in progress.
#[derive(Debug, Clone, Copy, PartialEq, Eq, Structural)]
pub enum RomResourceError {
    /// Fewer bytes were available than a read needed.
    UnableToRead,
    /// The container does not start with the expected magic number.
    IncorrectSignature,
    /// An allocation-table row has a kind other than file or directory.
    UnknownResourceKind,
    /// No file is registered under the requested path.
    NonExistentResource,
    /// The directory tree refers to a row outside the allocation table, or
    /// visits more rows than the table holds.
    MalformedTree,
    /// A section header matches none of the known section kinds.
    UnknownSectionSignature,
    /// A section kind that was already decoded appears again.
    RepeatedSection,
    /// A declared count that must be decremented is zero.
    InvalidEntryCount,
}

} // verus!
