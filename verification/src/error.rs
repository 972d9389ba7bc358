//! The ways in which saving or restoring a cache fails.

use vstd::prelude::*;
use vstd::string::*;

verus! {

/// What can go wrong while a cache is saved or restored. Every fatal kind
/// stems from the state of the repository or of the storage, which does not
/// change within one run, so none is retried.
#[derive(Debug, Clone, Copy, PartialEq, Eq, Structural)]
pub enum CacheError {
    /// No repository was found from the working directory upwards.
    RepositoryNotFound,
    /// Neither `origin/main` nor `origin/master` exists.
    TrunkNotFound,
    /// The history traversal failed.
    AncestryWalkFailed,
    /// None of the candidate keys exists in the storage.
    NoCacheFound,
    /// The bundle could not be written.
    ArchiveWriteFailed,
    /// The bundle could not be read.
    ArchiveReadFailed,
    /// The storage could not open, lock or create what it was asked for.
    StorageIoError,
    /// A requested file is not in the bundle. This is reported for each such
    /// file once the bundle was unpacked, and ends nothing.
    RequestedFileMissing,
}

impl CacheError {
    /// Whether this kind ends the operation. Only a requested file that the
    /// bundle lacks does not: what was found is still of use.
    pub fn is_fatal(&self) -> (fatal: bool)
        ensures
            fatal == (*self != CacheError::RequestedFileMissing),
    {
        match self {
            CacheError::RequestedFileMissing => false,
            _ => true,
        }
    }

    /// The message shown for this kind of failure.
    pub open spec fn message_text(self) -> Seq<char> {
        match self {
            CacheError::RepositoryNotFound => "Could not find a repository"@,
            CacheError::TrunkNotFound => "Could not find 'origin/main' or 'origin/master' reference"@,
            CacheError::AncestryWalkFailed => "Could not walk the commit history"@,
            CacheError::NoCacheFound => "No cache found"@,
            CacheError::ArchiveWriteFailed => "Could not write the archive"@,
            CacheError::ArchiveReadFailed => "Could not read the archive"@,
            CacheError::StorageIoError => "Could not access the cache storage"@,
            CacheError::RequestedFileMissing => "A file was asked but not found in cache"@,
        }
    }

    /// The message shown for this kind of failure.
    pub fn message(&self) -> (out: String)
        ensures
            out@ == self.message_text(),
    {
        match self {
            CacheError::RepositoryNotFound => String::from_str("Could not find a repository"),
            CacheError::TrunkNotFound => String::from_str(
                "Could not find 'origin/main' or 'origin/master' reference",
            ),
            CacheError::AncestryWalkFailed => String::from_str("Could not walk the commit history"),
            CacheError::NoCacheFound => String::from_str("No cache found"),
            CacheError::ArchiveWriteFailed => String::from_str("Could not write the archive"),
            CacheError::ArchiveReadFailed => String::from_str("Could not read the archive"),
            CacheError::StorageIoError => String::from_str("Could not access the cache storage"),
            CacheError::RequestedFileMissing => String::from_str(
                "A file was asked but not found in cache",
            ),
        }
    }
}

} // verus!
