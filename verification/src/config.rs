//! What a run is configured with from outside.

use vstd::prelude::*;
use vstd::string::*;

use crate::folder_backend::FolderBackend;
use crate::resolver::{in_merge_request_ci, PULL_REQUEST_MARK};
use crate::text::occurs_in;

verus! {

/// The environment variable that selects the directory of the storage.
pub const LOCATION_VARIABLE: &'static str = "CACHE_THING_LOCATION";

/// The environment variable that holds the reference a pipeline builds.
pub const CI_REFERENCE_VARIABLE: &'static str = "GITHUB_REF";

/// The directory of the storage where none is configured.
pub const DEFAULT_LOCATION: &'static str = "/tmp/cache-thing/data";

/// The configuration of a run, read once where the program starts.
pub struct Config {
    /// The directory of the storage, where one was selected.
    pub location: Option<String>,
    /// The reference that the pipeline builds, where it names one.
    pub ci_reference: Option<String>,
}

impl Config {
    /// The directory of the storage: the selected one, else the default.
    pub open spec fn location_text(&self) -> Seq<char> {
        match self.location {
            Some(dir) => dir@,
            None => DEFAULT_LOCATION@,
        }
    }

    /// The storage that this configuration selects.
    pub fn get_backend(&self) -> (backend: FolderBackend)
        ensures
            backend.base() == self.location_text(),
    {
        match &self.location {
            Some(dir) => FolderBackend::new(dir.clone()),
            None => FolderBackend::new(String::from_str(DEFAULT_LOCATION)),
        }
    }

    /// Whether the run builds a pull request.
    pub fn merge_request(&self) -> (marked: bool)
        ensures
            marked == match self.ci_reference {
                Some(r) => occurs_in(PULL_REQUEST_MARK@, r@),
                None => false,
            },
    {
        match &self.ci_reference {
            Some(r) => in_merge_request_ci(Some(r.as_str())),
            None => in_merge_request_ci(None),
        }
    }
}

} // verus!
