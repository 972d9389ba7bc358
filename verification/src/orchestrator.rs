//! Saving and restoring against a storage: which key is written, and which
//! of the candidate keys is read.

use vstd::prelude::*;

use crate::key::key_text;
use crate::resolver::{primary_key, source_identifier, KeySource};
use crate::storage_backend::{answers_presence, answers_reader, answers_writer, StorageBackend};
use crate::text::{opt_text, texts};

verus! {

/// Why a restore was given up before anything was read.
pub enum RestoreError<E> {
    /// The storage holds none of the candidate keys.
    NoCacheFound,
    /// The storage failed.
    Storage(E),
}

/// The storage was asked for the first `n` candidates and held none of them.
pub open spec fn all_absent<B: StorageBackend>(
    backend: &B,
    candidates: Seq<Seq<char>>,
    n: int,
) -> bool {
    forall|j: int| 0 <= j < n ==> #[trigger] answers_presence(backend, candidates[j], Ok(false))
}

/// The candidate at `i` is the first that the storage holds: asked in order,
/// the storage held none of those before it.
pub open spec fn first_present<B: StorageBackend>(
    backend: &B,
    candidates: Seq<Seq<char>>,
    i: int,
) -> bool {
    &&& 0 <= i < candidates.len()
    &&& all_absent(backend, candidates, i)
    &&& answers_presence(backend, candidates[i], Ok(true))
}

/// The storage failed with `error` when it was asked for the candidate at
/// `i`, after it had held none of those before it.
pub open spec fn probe_failed<B: StorageBackend>(
    backend: &B,
    candidates: Seq<Seq<char>>,
    i: int,
    error: B::Error,
) -> bool {
    &&& 0 <= i < candidates.len()
    &&& all_absent(backend, candidates, i)
    &&& answers_presence(backend, candidates[i], Err(error))
}

/// Probes the candidates in order and returns the position of the first
/// that the storage holds. No candidate behind it is asked for.
pub fn select_cache<B: StorageBackend>(backend: &B, candidates: &Vec<String>) -> (found: Result<
    usize,
    RestoreError<B::Error>,
>)
    ensures
        found matches Ok(i) ==> first_present(backend, texts(candidates@), i as int),
        found matches Err(RestoreError::NoCacheFound) ==> all_absent(
            backend,
            texts(candidates@),
            candidates@.len() as int,
        ),
        found matches Err(RestoreError::Storage(error)) ==> exists|i: int| #[trigger]
            probe_failed(backend, texts(candidates@), i, error),
{
    let mut i: usize = 0;
    while i < candidates.len()
        invariant
            i <= candidates@.len(),
            all_absent(backend, texts(candidates@), i as int),
        decreases candidates@.len() - i,
    {
        match backend.object_exists(candidates[i].as_str()) {
            Ok(true) => {
                return Ok(i);
            },
            Ok(false) => {},
            Err(error) => {
                let failed: Result<usize, RestoreError<B::Error>> = Err(RestoreError::Storage(error));
                assert(failed matches Err(RestoreError::Storage(e)) && probe_failed(
                    backend,
                    texts(candidates@),
                    i as int,
                    e,
                ));
                return failed;
            },
        }
        i = i + 1;
    }
    Err(RestoreError::NoCacheFound)
}

/// Starts a restore: selects the first candidate that the storage holds and
/// opens it for reading. The result is the selected key with its reader.
pub fn begin_pull<B: StorageBackend>(backend: &B, candidates: &Vec<String>) -> (opened: Result<
    (String, B::Reader),
    RestoreError<B::Error>,
>)
    ensures
        opened matches Ok((key, reader)) ==> exists|i: int| #[trigger]
            first_present(backend, texts(candidates@), i) && key@ == candidates@[i]@
                && answers_reader(backend, key@, Ok(reader)),
        opened matches Err(RestoreError::NoCacheFound) ==> all_absent(
            backend,
            texts(candidates@),
            candidates@.len() as int,
        ),
        opened matches Err(RestoreError::Storage(error)) ==> {
            ||| exists|i: int| #[trigger] probe_failed(backend, texts(candidates@), i, error)
            ||| exists|i: int| #[trigger]
                first_present(backend, texts(candidates@), i) && answers_reader(
                    backend,
                    candidates@[i]@,
                    Err(error),
                )
        },
{
    match select_cache(backend, candidates) {
        Ok(i) => {
            let key = candidates[i].clone();
            match backend.reader(key.as_str()) {
                Ok(reader) => Ok((key, reader)),
                Err(error) => {
                    assert(first_present(backend, texts(candidates@), i as int) && answers_reader(
                        backend,
                        candidates@[i as int]@,
                        Err(error),
                    ));
                    Err(RestoreError::Storage(error))
                },
            }
        },
        Err(error) => Err(error),
    }
}

/// Starts a save: resolves the key to save under and opens it for writing.
/// The result is the key with its writer.
pub fn begin_push<B: StorageBackend>(
    backend: &B,
    prefix: &str,
    suffix: Option<String>,
    source: &KeySource,
) -> (opened: Result<(String, B::Writer), B::Error>)
    ensures
        opened matches Ok((key, writer)) ==> {
            &&& key@ == key_text(prefix@, source_identifier(*source), opt_text(suffix))
            &&& answers_writer(backend, key@, Ok(writer))
        },
        opened matches Err(error) ==> answers_writer(
            backend,
            key_text(prefix@, source_identifier(*source), opt_text(suffix)),
            Err(error),
        ),
{
    let key = primary_key(prefix, suffix, source);
    match backend.writer(key.as_str()) {
        Ok(writer) => Ok((key, writer)),
        Err(error) => Err(error),
    }
}

} // verus!
