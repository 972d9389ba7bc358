//! A storage in a local directory, addressed by content.
//!
//! Each key is kept in one file, named by the hashed name of the key. The
//! files are opened, locked and written by the caller; what is decided here
//! is where the file of a key lies and how it is to be opened.

use vstd::prelude::*;
use vstd::string::*;
use vstd::utf8::encode_utf8;

use crate::digest::{hashed_name, sha256_hex};
use crate::path::{join, join_path};

verus! {

/// The name of the file that holds the object of `key`.
pub open spec fn object_name(key: Seq<char>) -> Seq<char> {
    hashed_name(encode_utf8(key))
}

/// The name of the file that holds the object of `key`.
pub fn hash_file_name(key: &str) -> (name: String)
    ensures
        name@ == object_name(key@),
{
    sha256_hex(key.as_bytes())
}

/// The advisory lock that is held on a file while it is open.
#[derive(Debug, Clone, Copy, PartialEq, Eq, Structural)]
pub enum LockKind {
    /// Held together with other readers, never together with a writer.
    Shared,
    /// Held alone.
    Exclusive,
}

/// How the file of a key is opened. The steps are taken in this order: the
/// missing directories above `path` are created where `create` is set; the
/// file is opened, and created where `create` is set and it is not there;
/// the lock is taken; the file is cut to length zero where `truncate` is set.
/// The lock is given up when the file is closed.
pub struct OpenPlan {
    pub path: String,
    pub create: bool,
    pub lock: LockKind,
    pub truncate: bool,
}

/// A storage in the directory `base_path`.
pub struct FolderBackend {
    base_path: String,
}

impl FolderBackend {
    /// The directory that holds the files.
    pub closed spec fn base(&self) -> Seq<char> {
        self.base_path@
    }

    /// The path of the file that holds the object of `key`.
    pub open spec fn path_of(&self, key: Seq<char>) -> Seq<char> {
        join_path(self.base(), object_name(key))
    }

    /// A storage in the directory `base_path`.
    pub fn new(base_path: String) -> (backend: Self)
        ensures
            backend.base() == base_path@,
    {
        Self { base_path }
    }

    /// The directory that holds the files.
    pub fn base_path(&self) -> (base: &str)
        ensures
            base@ == self.base(),
    {
        self.base_path.as_str()
    }

    /// The path of the file that holds the object of `key`. Whether there is
    /// an object under `key` is whether this path exists; the test takes no
    /// lock.
    pub fn object_path(&self, key: &str) -> (path: String)
        ensures
            path@ == self.path_of(key@),
    {
        let name = hash_file_name(key);
        join(self.base_path.as_str(), name.as_str())
    }

    /// How the file of `key` is opened for reading: as it is, under a shared
    /// lock.
    pub fn reader(&self, key: &str) -> (plan: OpenPlan)
        ensures
            plan.path@ == self.path_of(key@),
            !plan.create,
            plan.lock == LockKind::Shared,
            !plan.truncate,
    {
        OpenPlan { path: self.object_path(key), create: false, lock: LockKind::Shared, truncate: false }
    }

    /// How the file of `key` is opened for writing: created where it is
    /// missing, and cut to length zero only once the exclusive lock is held,
    /// so that no reader sees it being emptied.
    pub fn writer(&self, key: &str) -> (plan: OpenPlan)
        ensures
            plan.path@ == self.path_of(key@),
            plan.create,
            plan.lock == LockKind::Exclusive,
            plan.truncate,
    {
        OpenPlan { path: self.object_path(key), create: true, lock: LockKind::Exclusive, truncate: true }
    }
}

} // verus!
