//! Concrete scenarios for the fake system: symlink resolution, listings, metadata, ids,
//! refusals, the identity policy, and the conformance checks' negative answers.

use razel_os_api::conformance::{
    list_dir_is_deterministic, lstat_does_not_follow_final_symlink, metadata_dirtycheck_fields_see_rewrite,
    missing_is_notfound, read_roundtrip, FakeSystem,
};
use razel_os_api::{FileKind, HostPath, Metadata, OsError, OsPathFragment, OsPathPolicy, System};

fn p(s: &str) -> HostPath {
    HostPath::new(s)
}

/// Canonical form: the path under `/alias`.
struct PrefixPolicy;
impl OsPathPolicy for PrefixPolicy {
    fn canonicalize_alias(&self, p: &HostPath) -> HostPath {
        HostPath::new(&format!("/alias{}", p.as_str()))
    }
    fn normalize_fragment(&self, raw: &str) -> Result<OsPathFragment, OsError> {
        Err(OsError::Invalid { what: "fragment".into(), detail: raw.into() })
    }
}

fn names(v: &[OsPathFragment]) -> Vec<String> {
    v.iter().map(|f| f.as_str().to_string()).collect()
}

#[test]
fn host_path_join_inserts_one_separator() {
    let joined = p("/a/b").join(&OsPathFragment::new_unchecked("c.txt"));
    assert_eq!(joined.as_str(), "/a/b/c.txt");
    assert_eq!(OsPathFragment::new_unchecked("x").as_str(), "x");
}

#[test]
fn read_after_put_gives_the_written_bytes() {
    let mut fs = FakeSystem::new();
    fs.put_file("/f", b"one");
    assert_eq!(fs.read(&p("/f")).unwrap(), b"one");
    fs.put_file("/f", b"three");
    assert_eq!(fs.read(&p("/f")).unwrap(), b"three");
    assert_eq!(fs.stat(&p("/f")).unwrap().len, 5);
}

#[test]
fn relative_symlink_resolves_against_its_parent_directory() {
    let fs = FakeSystem::new().with_file("/d/sub/t", b"deep").with_symlink("/d/l", "sub/t");
    assert_eq!(fs.read(&p("/d/l")).unwrap(), b"deep");
    let target_meta = fs.stat(&p("/d/sub/t")).unwrap();
    assert_eq!(fs.stat(&p("/d/l")).unwrap(), target_meta, "stat follows the link to its target");
}

#[test]
fn absolute_symlink_target_replaces_the_path() {
    let fs = FakeSystem::new().with_file("/elsewhere/t", b"abs").with_symlink("/d/l", "/elsewhere/t");
    assert_eq!(fs.read(&p("/d/l")).unwrap(), b"abs");
}

#[test]
fn symlink_without_directory_resolves_to_its_target() {
    let fs = FakeSystem::new().with_file("target", b"flat").with_symlink("link", "target");
    assert_eq!(fs.read(&p("link")).unwrap(), b"flat");
}

#[test]
fn chained_symlinks_are_followed() {
    let fs = FakeSystem::new()
        .with_file("/z", b"end")
        .with_symlink("/a", "/b")
        .with_symlink("/b", "/z");
    assert_eq!(fs.read(&p("/a")).unwrap(), b"end");
}

#[test]
fn symlink_loop_is_a_typed_io_error() {
    let fs = FakeSystem::new().with_symlink("/a", "/a");
    match fs.read(&p("/a")) {
        Err(OsError::Io { detail }) => assert_eq!(detail, "symlink loop at /a"),
        other => panic!("a loop must be a typed Io error, got {other:?}"),
    }
    assert!(matches!(fs.stat(&p("/a")), Err(OsError::Io { .. })));
    assert_eq!(fs.lstat(&p("/a")).unwrap().kind, FileKind::Symlink, "lstat does not follow, so no loop");
}

#[test]
fn resolution_follows_at_most_eight_links() {
    // /l0 -> /l1 -> ... -> /l7 -> /f : eight links, one more than the bound allows.
    let mut fs = FakeSystem::new().with_file("/f", b"x");
    for i in 0..8 {
        let next = if i == 7 { "/f".to_string() } else { format!("/l{}", i + 1) };
        fs = fs.with_symlink(&format!("/l{i}"), &next);
    }
    assert!(matches!(fs.read(&p("/l0")), Err(OsError::Io { .. })), "eight hops exceed the bound");
    assert_eq!(fs.read(&p("/l1")).unwrap(), b"x", "seven hops are within the bound");
}

#[test]
fn lstat_len_is_the_raw_target_byte_length() {
    let fs = FakeSystem::new().with_symlink("/l", "caf\u{e9}");
    let m = fs.lstat(&p("/l")).unwrap();
    assert_eq!(m.kind, FileKind::Symlink);
    assert_eq!(m.len, 5, "four characters, five UTF-8 bytes");
}

#[test]
fn lstat_of_a_file_reports_the_file() {
    let fs = FakeSystem::new().with_file("/f", b"abc");
    let m = fs.lstat(&p("/f")).unwrap();
    assert_eq!(m.kind, FileKind::File);
    assert_eq!(m.len, 3);
    assert_eq!(m, fs.stat(&p("/f")).unwrap());
}

#[test]
fn path_exists_uses_lstat_semantics() {
    let fs = FakeSystem::new().with_file("/f", b"").with_symlink("/dangling", "/nowhere");
    assert_eq!(fs.path_exists(&p("/f")).unwrap(), true);
    assert_eq!(fs.path_exists(&p("/dangling")).unwrap(), true, "a dangling link exists");
    assert_eq!(fs.path_exists(&p("/nope")).unwrap(), false);
}

#[test]
fn read_link_of_a_file_is_not_found() {
    let fs = FakeSystem::new().with_file("/f", b"");
    match fs.read_link(&p("/f")) {
        Err(OsError::NotFound { path }) => assert_eq!(path, "/f"),
        other => panic!("expected NotFound, got {other:?}"),
    }
}

#[test]
fn read_of_missing_path_names_the_path() {
    let fs = FakeSystem::new();
    match fs.read(&p("/missing")) {
        Err(OsError::NotFound { path }) => assert_eq!(path, "/missing"),
        other => panic!("expected NotFound, got {other:?}"),
    }
}

#[test]
fn list_dir_includes_symlinks_and_skips_nested_entries() {
    let fs = FakeSystem::new()
        .with_file("/d/b", b"")
        .with_file("/d/sub/deep", b"")
        .with_symlink("/d/a", "b");
    assert_eq!(names(&fs.list_dir(&p("/d")).unwrap()), vec!["a", "b"]);
}

#[test]
fn list_dir_of_a_directory_with_only_nested_entries_is_empty_not_missing() {
    let fs = FakeSystem::new().with_file("/d/sub/deep", b"");
    assert_eq!(fs.list_dir(&p("/d")).unwrap(), Vec::<OsPathFragment>::new());
    assert!(matches!(fs.list_dir(&p("/e")), Err(OsError::NotFound { .. })));
}

#[test]
fn list_dir_lists_a_path_that_is_both_file_and_symlink_twice() {
    let fs = FakeSystem::new().with_file("/d/x", b"").with_symlink("/d/x", "y");
    assert_eq!(names(&fs.list_dir(&p("/d")).unwrap()), vec!["x", "x"]);
}

#[test]
fn list_dir_orders_by_raw_bytes() {
    let fs = FakeSystem::new()
        .with_file("/d/\u{e9}", b"")
        .with_file("/d/z", b"")
        .with_file("/d/Z", b"")
        .with_file("/d/_", b"");
    assert_eq!(names(&fs.list_dir(&p("/d")).unwrap()), vec!["Z", "_", "z", "\u{e9}"]);
}

#[test]
fn file_ids_are_fresh_per_path_and_stable_per_rewrite() {
    let mut fs = FakeSystem::new();
    fs.put_file("/a", b"1");
    fs.put_file("/b", b"1");
    let a = fs.stat(&p("/a")).unwrap();
    let b = fs.stat(&p("/b")).unwrap();
    assert_ne!(a.file_id, b.file_id, "distinct paths, distinct ids");
    assert_eq!(a.file_id, 1);
    assert_eq!(b.file_id, 2);
    assert_eq!(a.mtime_nanos, 1);
    assert_eq!(b.mtime_nanos, 2);
    fs.put_file("/a", b"2");
    let a2 = fs.stat(&p("/a")).unwrap();
    assert_eq!(a2.file_id, a.file_id);
    assert_eq!(a2.mtime_nanos, 3);
}

#[test]
fn symlinks_take_fresh_ids_and_clock_stamps() {
    let fs = FakeSystem::new().with_file("/f", b"").with_symlink("/l", "/f");
    let l = fs.lstat(&p("/l")).unwrap();
    assert_eq!(l.file_id, 2);
    assert_eq!(l.mtime_nanos, 2);
}

#[test]
fn identity_policy_keeps_paths_and_refuses_unsafe_fragments() {
    let fs = FakeSystem::new();
    assert_eq!(fs.canonicalize(&p("/var/x")).unwrap(), p("/var/x"));
    let pol = fs.path_policy();
    assert_eq!(pol.normalize_fragment("ok.txt").unwrap().as_str(), "ok.txt");
    match pol.normalize_fragment("a..b") {
        Err(OsError::Invalid { what, detail }) => {
            assert_eq!(what, "fragment");
            assert_eq!(detail, "a..b");
        }
        other => panic!("expected Invalid, got {other:?}"),
    }
    assert!(matches!(pol.normalize_fragment("a/b"), Err(OsError::Invalid { .. })));
    assert!(pol.normalize_fragment(".").is_ok(), "a single dot holds no `..`");
}

#[test]
fn refusals_name_their_operation() {
    let fs = FakeSystem::default();
    match fs.write_atomic(&p("/x"), b"") {
        Err(OsError::Unsupported { op, detail }) => {
            assert_eq!(op, "write_atomic");
            assert_eq!(detail, "skeleton Fake is read-only via System; use put_file");
        }
        other => panic!("expected Unsupported, got {other:?}"),
    }
}

#[test]
fn checks_report_violations() {
    let fs = FakeSystem::new().with_file("/x", b"hi").with_symlink("/l", "x");
    assert!(!read_roundtrip(&fs, &p("/x"), b"ho"), "wrong bytes");
    assert!(!read_roundtrip(&fs, &p("/nope"), b""), "missing file");
    assert!(!missing_is_notfound(&fs, &p("/x")), "present path");
    assert!(!list_dir_is_deterministic(&fs, &p(""), &["x", "l"]), "unsorted expectation");
    assert!(list_dir_is_deterministic(&fs, &p(""), &["l", "x"]));
    assert!(!lstat_does_not_follow_final_symlink(&fs, &p("/x"), "x", FileKind::File), "not a link");
    assert!(lstat_does_not_follow_final_symlink(&fs, &p("/l"), "x", FileKind::File));
    assert!(!lstat_does_not_follow_final_symlink(&fs, &p("/l"), "y", FileKind::File), "wrong target");
}

#[test]
fn dirty_check_rejects_id_change_and_invisible_rewrite() {
    let before = Metadata { kind: FileKind::File, len: 2, mtime_nanos: 5, file_id: 1 };
    let same_time = Metadata { kind: FileKind::File, len: 2, mtime_nanos: 5, file_id: 1 };
    let new_id = Metadata { kind: FileKind::File, len: 2, mtime_nanos: 6, file_id: 2 };
    let longer = Metadata { kind: FileKind::File, len: 3, mtime_nanos: 5, file_id: 1 };
    let dir = Metadata { kind: FileKind::Dir, len: 2, mtime_nanos: 6, file_id: 1 };
    assert!(!metadata_dirtycheck_fields_see_rewrite(&before, &same_time));
    assert!(!metadata_dirtycheck_fields_see_rewrite(&before, &new_id));
    assert!(metadata_dirtycheck_fields_see_rewrite(&before, &longer));
    assert!(!metadata_dirtycheck_fields_see_rewrite(&before, &dir));
}

#[test]
fn installed_policy_survives_fixture_edits() {
    let mut fs = FakeSystem::new().with_policy(Box::new(PrefixPolicy));
    assert_eq!(fs.canonicalize(&p("/a")).unwrap(), p("/alias/a"));
    fs.put_file("/f", b"x");
    let fs = fs.with_file("/g", b"y").with_symlink("/l", "/f").with_env("K", "v");
    assert_eq!(fs.canonicalize(&p("/a")).unwrap(), p("/alias/a"));
    assert!(fs.path_policy().normalize_fragment("ok").is_err());
    assert_eq!(fs.path_policy().canonicalize_alias(&p("/b")), p("/alias/b"));
}
