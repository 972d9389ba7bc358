//! The storage that bundles are kept in, addressed by key.

use vstd::prelude::*;

verus! {

/// A storage of byte streams under opaque keys. An object is created by a
/// writer, replaced as a whole by a later writer for the same key, and read
/// by any number of readers.
///
/// Nothing is promised of what an implementation answers. The functions that
/// work on a storage say which answers they were given.
pub trait StorageBackend {
    /// Why the storage could not do what it was asked for.
    type Error;

    /// The source that an object is read from.
    type Reader;

    /// The sink that an object is written to.
    type Writer;

    /// Opens the object under `key` for writing, in place of what was there.
    fn writer(&self, key: &str) -> Result<Self::Writer, Self::Error>;

    /// Opens the object under `key` for reading.
    fn reader(&self, key: &str) -> Result<Self::Reader, Self::Error>;

    /// Tells whether there is an object under `key`.
    fn object_exists(&self, key: &str) -> Result<bool, Self::Error>;
}

/// Asked whether there is an object under `key`, `backend` may answer `answer`.
pub open spec fn answers_presence<B: StorageBackend>(
    backend: &B,
    key: Seq<char>,
    answer: Result<bool, B::Error>,
) -> bool {
    exists|k: &str| k@ == key && #[trigger] call_ensures(B::object_exists, (backend, k), answer)
}

/// Asked for a reader of the object under `key`, `backend` may answer `answer`.
pub open spec fn answers_reader<B: StorageBackend>(
    backend: &B,
    key: Seq<char>,
    answer: Result<B::Reader, B::Error>,
) -> bool {
    exists|k: &str| k@ == key && #[trigger] call_ensures(B::reader, (backend, k), answer)
}

/// Asked for a writer of the object under `key`, `backend` may answer `answer`.
pub open spec fn answers_writer<B: StorageBackend>(
    backend: &B,
    key: Seq<char>,
    answer: Result<B::Writer, B::Error>,
) -> bool {
    exists|k: &str| k@ == key && #[trigger] call_ensures(B::writer, (backend, k), answer)
}

} // verus!
