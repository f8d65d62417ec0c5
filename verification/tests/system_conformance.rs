//! OS-system conformance, the `FakeSystem` half of the one suite. The shared property checks
//! live in `razel_os_api::conformance` and run against any `System` implementation.

use razel_os_api::conformance::{
    list_dir_is_deterministic, lstat_does_not_follow_final_symlink, metadata_dirtycheck_fields_see_rewrite,
    missing_is_notfound, read_roundtrip, FakeSystem,
};
use razel_os_api::{EnvName, FileKind, HostPath, OsError, OsPathFragment, OsPathPolicy, ProcessSpec, System};

fn p(s: &str) -> HostPath {
    HostPath::new(s)
}

// ──────────────── test-local per-OS policies ────────────────

struct DarwinAliasPolicy;
impl OsPathPolicy for DarwinAliasPolicy {
    fn canonicalize_alias(&self, path: &HostPath) -> HostPath {
        let s = path.as_str();
        for alias in ["/var", "/tmp", "/etc"] {
            if s == alias || s.starts_with(&format!("{alias}/")) {
                return HostPath::new(&format!("/private{s}"));
            }
        }
        path.clone()
    }
    fn normalize_fragment(&self, raw: &str) -> Result<OsPathFragment, OsError> {
        if raw.is_empty() || raw.contains('/') || raw == "." || raw == ".." {
            return Err(OsError::Invalid { what: "fragment".into(), detail: raw.into() });
        }
        Ok(OsPathFragment::new_unchecked(raw))
    }
}

struct WindowsPolicy;
impl OsPathPolicy for WindowsPolicy {
    fn canonicalize_alias(&self, path: &HostPath) -> HostPath {
        HostPath::new(&path.as_str().replace('/', "\\").to_ascii_lowercase())
    }
    fn normalize_fragment(&self, raw: &str) -> Result<OsPathFragment, OsError> {
        if raw.is_empty() || raw.contains('/') || raw.contains('\\') || raw == "." || raw == ".." {
            return Err(OsError::Invalid { what: "fragment".into(), detail: raw.into() });
        }
        Ok(OsPathFragment::new_unchecked(&raw.to_ascii_lowercase()))
    }
}

/// The fake passes the presence and missingness checks.
#[test]
fn fake_passes() {
    let fs = FakeSystem::new().with_file("/x", b"hi");
    assert!(read_roundtrip(&fs, &HostPath::new("/x"), b"hi"));
    assert!(missing_is_notfound(&fs, &HostPath::new("/nope")));
}

// ──────────────── missingness is typed, never an empty value ────────────────

/// `read`/`stat`/`list_dir` of an absent path are a typed `NotFound`; `path_exists` is
/// `Ok(false)`. `read` is NEVER `Ok(vec![])`.
#[test]
fn missing_path_is_error_never_empty_value() {
    let fs = FakeSystem::new().with_file("/root/present.txt", b"hi");
    assert!(missing_is_notfound(&fs, &p("/root/absent.txt")));
    assert!(missing_is_notfound(&fs, &p("/no/such/dir")));
    // The presence control: the same calls succeed on a real entry.
    assert!(read_roundtrip(&fs, &p("/root/present.txt"), b"hi"));
}

// ──────────────── one suite, all impls ────────────────

/// The SAME parameterized checks run on every `System` implementation; this is the fake half.
#[test]
fn one_suite_all_impls_fake_half() {
    let fs = FakeSystem::new().with_file("/x", b"bytes");
    assert!(read_roundtrip(&fs, &p("/x"), b"bytes"));
    assert!(missing_is_notfound(&fs, &p("/nope")));
}

// ──────────────── deterministic listing ────────────────

/// `list_dir` is sorted by raw byte name — scrambled insertion order and mixed case do not
/// change it ("A" (0x41) < "b" (0x62); "0" first).
#[test]
fn list_dir_is_deterministically_ordered() {
    let fs = FakeSystem::new()
        .with_file("/d/z.txt", b"1")
        .with_file("/d/A.txt", b"2")
        .with_file("/d/b.rs", b"3")
        .with_file("/d/0cfg", b"4");
    assert!(list_dir_is_deterministic(&fs, &p("/d"), &["0cfg", "A.txt", "b.rs", "z.txt"]));
}

// ──────────────── lstat ≠ stat; raw link targets ────────────────

/// `lstat` reports the SYMLINK; `stat` follows to the target's kind; `read_link` returns the
/// raw (here: relative) target byte-for-byte.
#[test]
fn lstat_does_not_follow_final_symlink_on_fake() {
    let fs = FakeSystem::new().with_file("/d/real.txt", b"content").with_symlink("/d/link", "real.txt");
    assert!(lstat_does_not_follow_final_symlink(&fs, &p("/d/link"), "real.txt", FileKind::File));
    // A dangling link still lstat's and read_link's raw — `..`-relative bytes survive untouched.
    let fs2 = FakeSystem::new().with_symlink("/d/dangling", "../peer/./gone");
    assert_eq!(fs2.lstat(&p("/d/dangling")).expect("lstat").kind, FileKind::Symlink);
    assert_eq!(fs2.read_link(&p("/d/dangling")).expect("read_link").0, "../peer/./gone");
    assert!(matches!(fs2.stat(&p("/d/dangling")), Err(OsError::NotFound { .. })),
        "stat THROUGH a dangling link is NotFound (typed), never a default");
}

// ──────────────── Darwin aliasing on the Fake ────────────────

/// With the Darwin policy, `canonicalize` collapses the `/var` firmlink alias.
#[test]
fn darwin_var_aliases_to_private_var() {
    let fs = FakeSystem::new().with_policy(Box::new(DarwinAliasPolicy));
    assert_eq!(fs.canonicalize(&p("/var/db/x")).expect("canonicalize"), p("/private/var/db/x"));
    assert_eq!(fs.canonicalize(&p("/tmp/y")).expect("canonicalize"), p("/private/tmp/y"));
    assert_eq!(fs.canonicalize(&p("/variant/x")).expect("canonicalize"), p("/variant/x"),
        "the alias applies to the /var COMPONENT, not the /var prefix bytes");
}

// ──────────────── dirty-check metadata ────────────────

/// `Metadata` exposes size + mtime + a stable file id, and a rewrite is VISIBLE in them even
/// when the length is unchanged.
#[test]
fn metadata_exposes_dirtycheck_fields() {
    let mut fs = FakeSystem::new();
    fs.put_file("/f", b"aa");
    let before = fs.stat(&p("/f")).expect("stat before");
    assert_eq!(before.len, 2);
    fs.put_file("/f", b"bb"); // same length — only the mtime can carry the change
    let after = fs.stat(&p("/f")).expect("stat after");
    assert!(metadata_dirtycheck_fields_see_rewrite(&before, &after));
    assert!(after.mtime_nanos > before.mtime_nanos,
        "same-length rewrite MUST advance the mtime (the cheap dirty-check depends on it)");
}

// ──────────────── Windows semantics exercised on the Fake ────────────────

/// The Windows policy runs on the Fake on a Unix host — `\` and case-insensitivity are pinned
/// by fixture; separator-carrying or dot fragments fail closed.
#[test]
fn windows_policy_exercised_on_fake() {
    let fs = FakeSystem::new().with_policy(Box::new(WindowsPolicy));
    assert_eq!(
        fs.canonicalize(&p("C:/Foo/Bar")).expect("canonicalize"),
        fs.canonicalize(&p("c:\\foo\\bar")).expect("canonicalize"),
        "separator and case must canonicalize identically under the Windows policy"
    );
    let pol = fs.path_policy();
    assert_eq!(pol.normalize_fragment("ReadMe.MD").unwrap(), pol.normalize_fragment("readme.md").unwrap());
    assert!(pol.normalize_fragment("a/b").is_err());
    assert!(pol.normalize_fragment("a\\b").is_err());
    assert!(pol.normalize_fragment("..").is_err());
}

// ──────────────── Send+Sync, no ambient state ────────────────

/// `System` impls are `Send + Sync` and hold NO ambient/process-global state — two instances
/// with different env snapshots do not cross-contaminate, and neither reads the ambient env.
#[test]
fn system_is_send_sync_no_ambient_state() {
    fn assert_send_sync<T: Send + Sync>() {}
    assert_send_sync::<FakeSystem>();
    let a = FakeSystem::new().with_env("ONLY_A", "a-value");
    let b = FakeSystem::new().with_env("ONLY_B", "b-value");
    let only_a = EnvName("ONLY_A".into());
    let only_b = EnvName("ONLY_B".into());
    assert_eq!(a.raw_env(&only_a).map(|v| v.0), Some("a-value".to_string()));
    assert_eq!(b.raw_env(&only_b).map(|v| v.0), Some("b-value".to_string()));
    assert_eq!(a.raw_env(&only_b), None, "instance A must not see instance B's snapshot");
    assert_eq!(b.raw_env(&only_a), None, "instance B must not see instance A's snapshot");
    // PATH is set in any test-runner process; the Fake's constructed-in snapshot must NOT expose it.
    assert_eq!(a.raw_env(&EnvName("PATH".into())), None, "no ambient env reaches raw_env");
}

// ──────────────── Unsupported is loud ────────────────

/// A capability an impl cannot provide is a typed `Unsupported` naming the op — never a silent
/// success/fallback.
#[test]
fn unsupported_is_loud_not_silent() {
    let fs = FakeSystem::new().with_file("/x", b"hi");
    match fs.write_atomic(&p("/x"), b"new") {
        Err(OsError::Unsupported { op, .. }) => assert_eq!(op, "write_atomic"),
        other => panic!("write_atomic on the skeleton Fake must be a LOUD Unsupported, got {other:?}"),
    }
    assert_eq!(fs.read(&p("/x")).expect("read"), b"hi", "the refused write must not have happened");
    let spec = ProcessSpec {
        program: p("/bin/true"),
        args: vec![],
        env: Default::default(),
        cwd: p("/"),
    };
    assert!(matches!(fs.spawn(&spec), Err(OsError::Unsupported { op: "spawn", .. })),
        "the Fake has no process model — spawn is a loud Unsupported, never a fabricated ExitStatus");
}
