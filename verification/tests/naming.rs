use cache_thing::archive::{hash_from_path, pack_plan, pack_step, PackEntry};
use cache_thing::config::{Config, DEFAULT_LOCATION};
use cache_thing::digest::sha256_hex;
use cache_thing::error::CacheError;
use cache_thing::folder_backend::{hash_file_name, FolderBackend, LockKind};
use cache_thing::path::{first_separator, join, split_leading};

#[test]
fn digest_of_known_inputs() {
    assert_eq!(
        sha256_hex(b""),
        "e3b0c44298fc1c149afbf4c8996fb92427ae41e4649b934ca495991b7852b855"
    );
    assert_eq!(
        sha256_hex(b"abc"),
        "ba7816bf8f01cfea414140de5dae2223b00361a396177a9cb410ff61f20015ad"
    );
}

#[test]
fn alias_is_the_hashed_name_of_the_path_text() {
    assert_eq!(
        hash_from_path("build/out.bin"),
        "f6999c84ed9d65a129235d5cfc62f027a8e07d12b52a164dc2fd836ba6d2eac3"
    );
    assert_eq!(
        hash_from_path("héllo"),
        "3c48591d8d098a4538f5e013dfcf406e948eac4d3277b10bf614e295d6068179"
    );
    assert_ne!(hash_from_path("target"), "target");
    assert_eq!(hash_from_path("target").len(), 64);
}

#[test]
fn file_name_is_the_hashed_name_of_the_key() {
    assert_eq!(
        hash_file_name("ci-abc123"),
        "06e83bb20732500dd75fe1ac76e5c5879a7bf2b04540f5515981f7ce1c71588b"
    );
    assert_eq!(hash_file_name("target"), hash_from_path("target"));
}

#[test]
fn first_separator_position() {
    assert_eq!(first_separator("alias/sub/file"), 5);
    assert_eq!(first_separator("alias"), 5);
    assert_eq!(first_separator("/alias"), 0);
    assert_eq!(first_separator(""), 0);
    assert_eq!(first_separator("hé/llo"), 2);
}

#[test]
fn split_takes_the_leading_component_off() {
    assert_eq!(split_leading("alias/sub/file"), ("alias".to_string(), "sub/file".to_string()));
    assert_eq!(split_leading("alias"), ("alias".to_string(), String::new()));
    assert_eq!(split_leading("alias/"), ("alias".to_string(), String::new()));
    assert_eq!(split_leading("/alias/x"), (String::new(), "alias/x".to_string()));
    assert_eq!(split_leading("./alias"), (".".to_string(), "alias".to_string()));
    assert_eq!(split_leading(""), (String::new(), String::new()));
    assert_eq!(split_leading("a//b"), ("a".to_string(), "/b".to_string()));
}

#[test]
fn join_puts_one_separator_between() {
    assert_eq!(join("build", "sub/file"), "build/sub/file");
    assert_eq!(join("build/", "file"), "build/file");
    assert_eq!(join("", "file"), "file");
    assert_eq!(join("build/out.bin", ""), "build/out.bin");
    assert_eq!(join("", ""), "");
    assert_eq!(join("/", "x"), "/x");
}

#[test]
fn pack_step_names_the_source_by_its_alias() {
    let step = pack_step("build/out.bin", false);
    assert_eq!(step.alias, "f6999c84ed9d65a129235d5cfc62f027a8e07d12b52a164dc2fd836ba6d2eac3");
    assert_eq!(step.source, "build/out.bin");
    assert!(!step.recursive);
    let step = pack_step("target", true);
    assert_eq!(step.alias, "34a04005bcaf206eec990bd9637d9fdb6725e0a0c0d4aebf003f17f4c956eb5c");
    assert_eq!(step.source, "target");
    assert!(step.recursive);
}

#[test]
fn pack_plan_keeps_the_order_given() {
    let entries = vec![
        PackEntry { path: "target".to_string(), is_directory: true },
        PackEntry { path: "build/out.bin".to_string(), is_directory: false },
        PackEntry { path: "target".to_string(), is_directory: true },
    ];
    let steps = pack_plan(&entries);
    assert_eq!(steps.len(), 3);
    assert_eq!(steps[0].source, "target");
    assert_eq!(steps[1].source, "build/out.bin");
    assert_eq!(steps[2].source, "target");
    assert_eq!(steps[0].alias, hash_from_path("target"));
    assert_eq!(steps[1].alias, hash_from_path("build/out.bin"));
    assert!(steps[0].recursive && !steps[1].recursive && steps[2].recursive);
    assert!(pack_plan(&Vec::new()).is_empty());
}

#[test]
fn folder_backend_places_objects_by_hashed_key() {
    let backend = FolderBackend::new("/var/cache".to_string());
    assert_eq!(backend.base_path(), "/var/cache");
    assert_eq!(
        backend.object_path("ci-abc123"),
        "/var/cache/06e83bb20732500dd75fe1ac76e5c5879a7bf2b04540f5515981f7ce1c71588b"
    );
    let relative = FolderBackend::new(String::new());
    assert_eq!(
        relative.object_path("ci-abc123"),
        "06e83bb20732500dd75fe1ac76e5c5879a7bf2b04540f5515981f7ce1c71588b"
    );
}

#[test]
fn folder_backend_reads_shared_and_writes_exclusive() {
    let backend = FolderBackend::new("/var/cache/".to_string());
    let path = "/var/cache/b0e2342f45e444b2c1be42db65c4eb9880b5cc6e10fd27a49c4a12b66e7cb554";
    let read = backend.reader("ci-def456");
    assert_eq!(read.path, path);
    assert_eq!(read.lock, LockKind::Shared);
    assert!(!read.create && !read.truncate);
    let write = backend.writer("ci-def456");
    assert_eq!(write.path, path);
    assert_eq!(write.lock, LockKind::Exclusive);
    assert!(write.create && write.truncate);
}

#[test]
fn configuration_selects_the_storage_directory() {
    let config = Config { location: None, ci_reference: None };
    assert_eq!(config.get_backend().base_path(), "/tmp/cache-thing/data");
    assert_eq!(DEFAULT_LOCATION, "/tmp/cache-thing/data");
    assert!(!config.merge_request());
    let config = Config {
        location: Some("/srv/cache".to_string()),
        ci_reference: Some("refs/pull/3/merge".to_string()),
    };
    assert_eq!(config.get_backend().base_path(), "/srv/cache");
    assert!(config.merge_request());
    let config = Config { location: None, ci_reference: Some("refs/heads/main".to_string()) };
    assert!(!config.merge_request());
}

#[test]
fn every_failure_has_a_message() {
    assert_eq!(
        CacheError::TrunkNotFound.message(),
        "Could not find 'origin/main' or 'origin/master' reference"
    );
    assert_eq!(CacheError::NoCacheFound.message(), "No cache found");
    let kinds = [
        CacheError::RepositoryNotFound,
        CacheError::TrunkNotFound,
        CacheError::AncestryWalkFailed,
        CacheError::NoCacheFound,
        CacheError::ArchiveWriteFailed,
        CacheError::ArchiveReadFailed,
        CacheError::StorageIoError,
        CacheError::RequestedFileMissing,
    ];
    for (i, a) in kinds.iter().enumerate() {
        assert!(!a.message().is_empty());
        assert_eq!(a.is_fatal(), *a != CacheError::RequestedFileMissing);
        for b in kinds.iter().skip(i + 1) {
            assert_ne!(a.message(), b.message());
        }
    }
}
