use std::cell::RefCell;
use std::io::Read;

use cache_thing::archive::{hash_from_path, pack_step, EntryAction, FileRequests};
use cache_thing::orchestrator::{begin_pull, begin_push, select_cache, RestoreError};
use cache_thing::resolver::{possible_restore_keys, Commit, KeySource};
use cache_thing::storage_backend::StorageBackend;
use flate2::read::GzDecoder;
use flate2::write::GzEncoder;
use flate2::Compression;

/// A storage in memory that records what it was asked for.
struct Memory {
    objects: Vec<(String, Vec<u8>)>,
    broken: Option<String>,
    probes: RefCell<Vec<String>>,
    opened: RefCell<Vec<String>>,
}

impl Memory {
    fn holding(keys: &[&str]) -> Memory {
        Memory {
            objects: keys.iter().map(|k| (k.to_string(), k.as_bytes().to_vec())).collect(),
            broken: None,
            probes: RefCell::new(Vec::new()),
            opened: RefCell::new(Vec::new()),
        }
    }
}

impl StorageBackend for Memory {
    type Error = String;
    type Reader = Vec<u8>;
    type Writer = String;

    fn writer(&self, key: &str) -> Result<String, String> {
        if self.broken.as_deref() == Some(key) {
            return Err(format!("cannot write {}", key));
        }
        self.opened.borrow_mut().push(key.to_string());
        Ok(key.to_string())
    }

    fn reader(&self, key: &str) -> Result<Vec<u8>, String> {
        self.opened.borrow_mut().push(key.to_string());
        match self.objects.iter().find(|(k, _)| k == key) {
            Some((_, bytes)) => Ok(bytes.clone()),
            None => Err(format!("no object {}", key)),
        }
    }

    fn object_exists(&self, key: &str) -> Result<bool, String> {
        self.probes.borrow_mut().push(key.to_string());
        if self.broken.as_deref() == Some(key) {
            return Err(format!("cannot probe {}", key));
        }
        Ok(self.objects.iter().any(|(k, _)| k == key))
    }
}

fn names(texts: &[&str]) -> Vec<String> {
    texts.iter().map(|t| t.to_string()).collect()
}

fn sorted(mut paths: Vec<String>) -> Vec<String> {
    paths.sort();
    paths
}

#[test]
fn push_writes_under_the_key_of_head() {
    let storage = Memory::holding(&[]);
    let source = KeySource::Head {
        head: Commit { id: "abc123".to_string(), parents: names(&["e7a1"]) },
        trunk: "def456".to_string(),
        merge_request: false,
    };
    let (key, writer) = begin_push(&storage, "ci", None, &source).unwrap();
    assert_eq!(key, "ci-abc123");
    assert_eq!(writer, "ci-abc123");
    assert_eq!(*storage.opened.borrow(), names(&["ci-abc123"]));
    let step = pack_step("build/out.bin", false);
    assert_eq!(step.alias, hash_from_path("build/out.bin"));
    assert_eq!(step.source, "build/out.bin");
}

#[test]
fn push_with_fixed_key_and_failing_storage() {
    let mut storage = Memory::holding(&[]);
    let source = KeySource::Fixed("nightly".to_string());
    let (key, _) = begin_push(&storage, "ci", Some("linux".to_string()), &source).unwrap();
    assert_eq!(key, "ci-nightly-linux");
    storage.broken = Some("ci-nightly".to_string());
    assert_eq!(
        begin_push(&storage, "ci", None, &source).err(),
        Some("cannot write ci-nightly".to_string())
    );
}

#[test]
fn pull_probes_walked_commits_then_finds_trunk() {
    let storage = Memory::holding(&["ci-def456"]);
    let walk = names(&["c3", "c2", "c1"]);
    let candidates = possible_restore_keys("ci", None, None, &"def456".to_string(), &walk);
    let (key, reader) = match begin_pull(&storage, &candidates) {
        Ok(found) => found,
        Err(_) => panic!("a cache exists"),
    };
    assert_eq!(key, "ci-def456");
    assert_eq!(reader, b"ci-def456".to_vec());
    assert_eq!(*storage.probes.borrow(), names(&["ci-c3", "ci-c2", "ci-c1", "ci-def456"]));
    assert_eq!(*storage.opened.borrow(), names(&["ci-def456"]));
}

#[test]
fn pull_without_any_cache_finds_none() {
    let storage = Memory::holding(&["other-def456"]);
    let walk = names(&["c3", "c2", "c1"]);
    let candidates =
        possible_restore_keys("ci", None, Some("nightly".to_string()), &"def456".to_string(), &walk);
    assert!(matches!(begin_pull(&storage, &candidates), Err(RestoreError::NoCacheFound)));
    assert!(matches!(select_cache(&storage, &candidates), Err(RestoreError::NoCacheFound)));
    assert_eq!(storage.probes.borrow().len(), 2 * candidates.len());
    assert!(storage.opened.borrow().is_empty());
    assert!(matches!(select_cache(&storage, &Vec::new()), Err(RestoreError::NoCacheFound)));
}

#[test]
fn pull_stops_at_the_first_key_found() {
    let storage = Memory::holding(&["ci-c1", "ci-c2", "ci-def456"]);
    let candidates = names(&["ci-c3", "ci-c2", "ci-c1", "ci-def456"]);
    assert!(matches!(select_cache(&storage, &candidates), Ok(1)));
    assert_eq!(*storage.probes.borrow(), names(&["ci-c3", "ci-c2"]));
}

#[test]
fn pull_gives_up_when_the_storage_fails() {
    let mut storage = Memory::holding(&["ci-def456"]);
    storage.broken = Some("ci-c2".to_string());
    let candidates = names(&["ci-c3", "ci-c2", "ci-c1", "ci-def456"]);
    match begin_pull(&storage, &candidates) {
        Err(RestoreError::Storage(message)) => assert_eq!(message, "cannot probe ci-c2"),
        _ => panic!("the storage failed"),
    }
    assert_eq!(*storage.probes.borrow(), names(&["ci-c3", "ci-c2"]));
}

#[test]
fn requests_route_entries_below_the_requested_path() {
    let mut requests = FileRequests::new(&names(&["build/out.bin", "target"]));
    let file = hash_from_path("build/out.bin");
    let dir = hash_from_path("target");
    match requests.route(&file) {
        EntryAction::Extract { target } => assert_eq!(target, "build/out.bin"),
        EntryAction::Skip => panic!("the file was requested"),
    }
    match requests.route(&format!("{}/debug/deps/a.o", dir)) {
        EntryAction::Extract { target } => assert_eq!(target, "target/debug/deps/a.o"),
        EntryAction::Skip => panic!("the directory was requested"),
    }
    match requests.route(&format!("{}/", dir)) {
        EntryAction::Extract { target } => assert_eq!(target, "target"),
        EntryAction::Skip => panic!("the directory was requested"),
    }
    assert!(requests.missing().is_empty());
}

#[test]
fn requests_skip_what_was_not_asked_for() {
    let mut requests = FileRequests::new(&names(&["build/out.bin"]));
    let other = hash_from_path("target");
    assert!(matches!(requests.route(&format!("{}/x", other)), EntryAction::Skip));
    assert!(matches!(requests.route("build/out.bin"), EntryAction::Skip));
    assert!(matches!(requests.route(""), EntryAction::Skip));
    assert!(matches!(requests.route("/etc/passwd"), EntryAction::Skip));
    let own = hash_from_path("build/out.bin");
    assert!(matches!(requests.route(&format!("./{}", own)), EntryAction::Skip));
    assert!(matches!(requests.route(&format!("{}x", own)), EntryAction::Skip));
    assert_eq!(requests.missing(), names(&["build/out.bin"]));
}

#[test]
fn missing_reports_every_request_without_entry() {
    let files = names(&["a", "b", "c", "d"]);
    let mut requests = FileRequests::new(&files);
    assert_eq!(sorted(requests.missing()), files);
    assert!(matches!(requests.route(&hash_from_path("c")), EntryAction::Extract { .. }));
    assert_eq!(sorted(requests.missing()), names(&["a", "b", "d"]));
    assert!(matches!(requests.route(&hash_from_path("c")), EntryAction::Extract { .. }));
    assert!(matches!(requests.route(&hash_from_path("zzz")), EntryAction::Skip));
    assert_eq!(sorted(requests.missing()), names(&["a", "b", "d"]));
    assert!(matches!(requests.route(&hash_from_path("a")), EntryAction::Extract { .. }));
    assert_eq!(sorted(requests.missing()), names(&["b", "d"]));
}

#[test]
fn a_file_requested_twice_is_one_request() {
    let mut requests = FileRequests::new(&names(&["a", "b", "a"]));
    assert_eq!(sorted(requests.missing()), names(&["a", "b"]));
    assert!(matches!(requests.route(&hash_from_path("a")), EntryAction::Extract { .. }));
    assert_eq!(requests.missing(), names(&["b"]));
    let empty = FileRequests::new(&Vec::new());
    assert!(empty.missing().is_empty());
}

fn add(builder: &mut tar::Builder<GzEncoder<Vec<u8>>>, name: &str, data: &[u8]) {
    let mut header = tar::Header::new_gnu();
    header.set_size(data.len() as u64);
    header.set_mode(0o644);
    header.set_cksum();
    builder.append_data(&mut header, name, data).unwrap();
}

/// Packs in memory what the plan names, and hands back the bundle.
fn bundle(sources: &[(&str, &[(&str, &[u8])])]) -> Vec<u8> {
    let mut builder = tar::Builder::new(GzEncoder::new(Vec::new(), Compression::default()));
    for (path, contents) in sources {
        let step = pack_step(path, contents.len() != 1 || !contents[0].0.is_empty());
        for (below, data) in contents.iter() {
            let name = if step.recursive {
                format!("{}/{}", step.alias, below)
            } else {
                step.alias.clone()
            };
            add(&mut builder, &name, data);
        }
    }
    builder.into_inner().unwrap().finish().unwrap()
}

/// Unpacks a bundle in memory: what would be written, by target path.
fn unpack(bytes: &[u8], requests: &mut FileRequests) -> Vec<(String, Vec<u8>)> {
    let mut written = Vec::new();
    let mut archive = tar::Archive::new(GzDecoder::new(bytes));
    for entry in archive.entries().unwrap() {
        let mut entry = entry.unwrap();
        let name = entry.path().unwrap().to_string_lossy().into_owned();
        match requests.route(&name) {
            EntryAction::Extract { target } => {
                let mut data = Vec::new();
                entry.read_to_end(&mut data).unwrap();
                written.push((target, data));
            }
            EntryAction::Skip => {}
        }
    }
    written
}

#[test]
fn pack_then_unpack_restores_content_and_structure() {
    let out: &[(&str, &[u8])] = &[("", b"binary\x00\xff")];
    let target: &[(&str, &[u8])] = &[("debug/a.o", b"object a"), ("debug/deps/b.o", b""), ("c", b"c")];
    let bytes = bundle(&[("build/out.bin", out), ("target", target)]);
    let mut requests = FileRequests::new(&names(&["build/out.bin", "target"]));
    let written = unpack(&bytes, &mut requests);
    assert_eq!(
        written,
        vec![
            ("build/out.bin".to_string(), b"binary\x00\xff".to_vec()),
            ("target/debug/a.o".to_string(), b"object a".to_vec()),
            ("target/debug/deps/b.o".to_string(), Vec::new()),
            ("target/c".to_string(), b"c".to_vec()),
        ]
    );
    assert!(requests.missing().is_empty());
}

#[test]
fn unpack_reports_what_the_bundle_lacks_and_extracts_the_rest() {
    let out: &[(&str, &[u8])] = &[("", b"binary")];
    let extra: &[(&str, &[u8])] = &[("x", b"not asked for")];
    let bytes = bundle(&[("build/out.bin", out), ("extra", extra)]);
    let mut requests = FileRequests::new(&names(&["gone", "build/out.bin"]));
    let written = unpack(&bytes, &mut requests);
    assert_eq!(written, vec![("build/out.bin".to_string(), b"binary".to_vec())]);
    assert_eq!(requests.missing(), names(&["gone"]));
}
