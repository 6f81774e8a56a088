//! Backends.

use cascade_engine::backend::{
    is_root_native_id, read_range, root_native_id, BackendError, MountedBackend, NullBackend,
    NullOperation,
};

#[test]
fn default_read_range_slices_the_downloaded_buffer() {
    let content = b"hello world";
    // Mid-range read.
    assert_eq!(read_range(content, 6, 5), b"world");
    // Whole file when length covers it.
    assert_eq!(read_range(content, 0, 11), b"hello world");
    // Length past EOF clamps to what's available.
    assert_eq!(read_range(content, 6, 999), b"world");
}

#[test]
fn default_read_range_empty_at_or_past_eof() {
    let content = b"hello world";
    // Offset exactly at EOF -> empty.
    assert!(read_range(content, 11, 10).is_empty());
    // Offset past EOF -> empty (no panic).
    assert!(read_range(content, 1000, 10).is_empty());
    // Zero length -> empty.
    assert!(read_range(content, 0, 0).is_empty());
    assert!(read_range(content, u64::MAX, u32::MAX).is_empty());
}

#[test]
fn adjacent_ranges_join() {
    let content: Vec<u8> = (0..50).collect();
    let mut joined = read_range(&content, 3, 20);
    joined.extend(read_range(&content, 23, 20));
    assert_eq!(joined, read_range(&content, 3, 40));
}

#[test]
fn default_is_root_native_id_recognises_only_root_and_slash() {
    assert!(is_root_native_id("root"));
    assert!(is_root_native_id("/"));
    // Not every "__"-prefixed id is a root.
    assert!(!is_root_native_id("__mydrive"));
    assert!(!is_root_native_id("__user_file"));
    assert!(!is_root_native_id("abc123"));
    assert!(is_root_native_id(root_native_id()));
}

#[test]
fn backend_errors_name_their_category() {
    let detail = || "x".to_owned();
    assert_eq!(
        BackendError::Forbidden(detail()).message(),
        "permission denied: x"
    );
    assert_eq!(BackendError::NotFound(detail()).message(), "not found: x");
    assert_eq!(BackendError::ReadOnly(detail()).message(), "read-only: x");
    assert_eq!(BackendError::Conflict(detail()).message(), "conflict: x");
}

#[test]
fn a_null_backend_has_nothing_and_takes_nothing() {
    let null = NullBackend::new("shared".to_owned());
    assert_eq!(null.id(), "shared");
    assert_eq!(null.display_name(), "P2P Only");
    let (changes, cursor) = null.changes();
    assert!(changes.is_empty());
    assert_eq!(cursor, "null");
    assert_eq!(
        null.refusal(NullOperation::Metadata),
        "null backend has no files"
    );
    assert_eq!(
        null.refusal(NullOperation::Download),
        "null backend has no files"
    );
    assert_eq!(
        null.refusal(NullOperation::Upload),
        "null backend cannot upload"
    );
    assert_eq!(
        null.refusal(NullOperation::Update),
        "null backend cannot update"
    );
    assert_eq!(
        null.refusal(NullOperation::CreateDir),
        "null backend cannot create directories"
    );
    assert_eq!(
        null.refusal(NullOperation::Delete),
        "null backend cannot delete"
    );
    assert_eq!(null.refusal(NullOperation::Move), "null backend cannot move");
}

#[test]
fn mounts_resolve_to_prefixes() {
    let at_root = MountedBackend::new(Some("/".to_owned()), "id".to_owned());
    assert_eq!(at_root.resolve_prefix(), "");
    let named = MountedBackend::new(Some("work".to_owned()), "id".to_owned());
    assert_eq!(named.resolve_prefix(), "work");
    assert_eq!(
        MountedBackend::at_default("id".to_owned()).resolve_prefix(),
        "id"
    );
}
