//! The failures that the storage layers and the allocator report.

use vstd::prelude::*;

verus! {

/// A failure of a storage, table or allocator operation.
#[derive(Copy, Clone, Debug, PartialEq, Eq, Structural)]
pub enum FsError {
    /// Fewer bytes are stored at the position than were asked for.
    ShortRead,
    /// The position lies beyond what the container can address.
    OutOfRange,
    /// A single block write was handed more bytes than one block holds.
    BlockTooLarge,
    /// The path does not resolve to any item.
    NotFound,
    /// The path resolves to a directory where a file is needed.
    IsDirectory,
    /// The persisted file table holds no bytes.
    EmptyTable,
    /// The persisted file table cannot be decoded.
    CorruptTable,
}

impl FsError {
    /// The text of the message that describes this failure.
    pub open spec fn message_text(self) -> Seq<char> {
        match self {
            FsError::ShortRead => "Could not read: fewer bytes are stored than were asked for"@,
            FsError::OutOfRange => "Could not write: position exceeds what the container can address"@,
            FsError::BlockTooLarge => "Could not write to block: data size is bigger than block size"@,
            FsError::NotFound => "File not found"@,
            FsError::IsDirectory => "Cannot write to a directory"@,
            FsError::EmptyTable => "Could not read file"@,
            FsError::CorruptTable => "Could not parse data"@,
        }
    }

    /// A human-readable description of the failure.
    pub fn message(&self) -> (text: String)
        ensures
            text@ == self.message_text(),
    {
        match self {
            FsError::ShortRead => "Could not read: fewer bytes are stored than were asked for".to_owned(),
            FsError::OutOfRange => "Could not write: position exceeds what the container can address".to_owned(),
            FsError::BlockTooLarge => "Could not write to block: data size is bigger than block size".to_owned(),
            FsError::NotFound => "File not found".to_owned(),
            FsError::IsDirectory => "Cannot write to a directory".to_owned(),
            FsError::EmptyTable => "Could not read file".to_owned(),
            FsError::CorruptTable => "Could not parse data".to_owned(),
        }
    }
}

} // verus!
