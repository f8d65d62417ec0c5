//! `razel-os-api`: the `System` seam, the one OS/syscall surface. Typed OS paths (no
//! stringly-typed paths), fail-closed `OsError::NotFound` (never a silent empty value),
//! `lstat` distinct from `stat`, `Metadata` without any content digest, exact-environment
//! spawn specs, and `OsPathPolicy` for per-OS alias canonicalization. The in-memory
//! `FakeSystem` (in `conformance`) is the reference implementation every layer above is
//! tested against.

use vstd::prelude::*;
use vstd::string::*;

pub mod text;
pub mod text_map;
pub mod graph;
pub mod env;
pub mod conformance;

use crate::text_map::{TextKey, TextMap};

verus! {

// ──────────────── Typed OS path/env values ────────────────

/// A concrete host filesystem path. Host paths never enter a node key.
#[derive(PartialEq, Eq, Hash, Debug)]
pub struct HostPath(String);

impl View for HostPath {
    type V = Seq<char>;

    closed spec fn view(&self) -> Seq<char> {
        self.0@
    }
}

impl Clone for HostPath {
    fn clone(&self) -> (r: Self)
        ensures
            r@ == self@,
    {
        HostPath(self.0.clone())
    }
}

impl HostPath {
    /// Construction is restricted to the OS seam / declared-edge policy.
    pub fn new(s: &str) -> (r: Self)
        ensures
            r@ == s@,
    {
        HostPath(s.to_owned())
    }

    pub fn as_str(&self) -> (r: &str)
        ensures
            r@ == self@,
    {
        self.0.as_str()
    }

    /// `self/frag`.
    pub fn join(&self, frag: &OsPathFragment) -> (r: HostPath)
        ensures
            r@ == self@ + seq!['/'] + frag@,
    {
        let mut s = self.0.clone();
        let sep = "/";
        proof {
            reveal_strlit("/");
        }
        s.append(sep);
        s.append(frag.as_str());
        HostPath(s)
    }
}

/// A validated path fragment (no `..`, no separators-as-data). The validating constructor is
/// `OsPathPolicy::normalize_fragment`; `new_unchecked` is for impls that have already
/// validated (e.g. a real directory entry from `list_dir`).
#[derive(PartialEq, Eq, Hash, Debug)]
pub struct OsPathFragment(String);

impl View for OsPathFragment {
    type V = Seq<char>;

    closed spec fn view(&self) -> Seq<char> {
        self.0@
    }
}

impl Clone for OsPathFragment {
    fn clone(&self) -> (r: Self)
        ensures
            r@ == self@,
    {
        OsPathFragment(self.0.clone())
    }
}

impl OsPathFragment {
    pub fn new_unchecked(s: &str) -> (r: Self)
        ensures
            r@ == s@,
    {
        OsPathFragment(s.to_owned())
    }

    pub fn as_str(&self) -> (r: &str)
        ensures
            r@ == self@,
    {
        self.0.as_str()
    }
}

/// The RAW target of a symlink: it may be relative or non-canonical, so it is NOT a `HostPath`.
#[derive(PartialEq, Eq, Hash, Debug)]
pub struct RawSymlinkTarget(pub String);

impl View for RawSymlinkTarget {
    type V = Seq<char>;

    open spec fn view(&self) -> Seq<char> {
        self.0@
    }
}

impl Clone for RawSymlinkTarget {
    fn clone(&self) -> (r: Self)
        ensures
            r@ == self@,
    {
        RawSymlinkTarget(self.0.clone())
    }
}

/// The name of an environment variable, compared byte-exact.
#[derive(PartialEq, Eq, Hash, PartialOrd, Ord, Debug)]
pub struct EnvName(pub String);

impl View for EnvName {
    type V = Seq<char>;

    open spec fn view(&self) -> Seq<char> {
        self.0@
    }
}

impl Clone for EnvName {
    fn clone(&self) -> (r: Self)
        ensures
            r@ == self@,
    {
        EnvName(self.0.clone())
    }
}

impl TextKey for EnvName {
    open spec fn text(&self) -> Seq<char> {
        self.0@
    }

    fn as_text(&self) -> (r: &str) {
        self.0.as_str()
    }

    fn dup(&self) -> (r: Self) {
        EnvName(self.0.clone())
    }
}

/// The value of an environment variable, passed through verbatim.
#[derive(PartialEq, Eq, Debug)]
pub struct OsValue(pub String);

impl View for OsValue {
    type V = Seq<char>;

    open spec fn view(&self) -> Seq<char> {
        self.0@
    }
}

impl Clone for OsValue {
    fn clone(&self) -> (r: Self)
        ensures
            r@ == self@,
    {
        OsValue(self.0.clone())
    }
}

/// An exact environment: variable names to values, ordered by the names' bytes.
pub type EnvMap = TextMap<EnvName, OsValue>;

/// The text view of an environment map.
pub open spec fn env_map_view(m: Map<Seq<char>, OsValue>) -> Map<Seq<char>, Seq<char>> {
    m.map_values(|v: OsValue| v@)
}

// ──────────────── Stat results: fail-closed; Metadata has no digest ────────────────

#[derive(Clone, Copy, PartialEq, Eq, Debug, Structural)]
pub enum FileKind {
    File,
    Dir,
    Symlink,
}

/// Cheap dirty-check identity (size + mtime + opaque file id). Deliberately exposes NO
/// content digest: hashing happens above, over content, never over stat.
#[derive(Clone, Copy, PartialEq, Eq, Debug, Structural)]
pub struct Metadata {
    pub kind: FileKind,
    pub len: u64,
    pub mtime_nanos: i128,
    pub file_id: u64,
}

impl View for Metadata {
    type V = Metadata;

    open spec fn view(&self) -> Metadata {
        *self
    }
}

#[derive(Clone, Debug)]
#[non_exhaustive]
pub enum OsError {
    NotFound { path: String },
    PermissionDenied { path: String },
    AlreadyExists { path: String },
    /// A capability the impl cannot provide: LOUD, never a silent fallback.
    Unsupported { op: &'static str, detail: String },
    SpawnFailed { program: String, detail: String },
    Invalid { what: String, detail: String },
    Io { detail: String },
}

/// The text view of an `OsError`.
pub enum OsErrorView {
    NotFound { path: Seq<char> },
    PermissionDenied { path: Seq<char> },
    AlreadyExists { path: Seq<char> },
    Unsupported { op: Seq<char>, detail: Seq<char> },
    SpawnFailed { program: Seq<char>, detail: Seq<char> },
    Invalid { what: Seq<char>, detail: Seq<char> },
    Io { detail: Seq<char> },
}

impl View for OsError {
    type V = OsErrorView;

    open spec fn view(&self) -> OsErrorView {
        match self {
            OsError::NotFound { path } => OsErrorView::NotFound { path: path@ },
            OsError::PermissionDenied { path } => OsErrorView::PermissionDenied { path: path@ },
            OsError::AlreadyExists { path } => OsErrorView::AlreadyExists { path: path@ },
            OsError::Unsupported { op, detail } => OsErrorView::Unsupported {
                op: op@,
                detail: detail@,
            },
            OsError::SpawnFailed { program, detail } => OsErrorView::SpawnFailed {
                program: program@,
                detail: detail@,
            },
            OsError::Invalid { what, detail } => OsErrorView::Invalid { what: what@, detail: detail@ },
            OsError::Io { detail } => OsErrorView::Io { detail: detail@ },
        }
    }
}

/// The view of a call's outcome.
pub open spec fn outcome<T: View>(r: Result<T, OsError>) -> Result<T::V, OsErrorView> {
    match r {
        Ok(v) => Ok(v@),
        Err(e) => Err(e@),
    }
}

/// The names of a directory listing.
pub open spec fn fragment_names(v: Seq<OsPathFragment>) -> Seq<Seq<char>> {
    v.map_values(|f: OsPathFragment| f@)
}

/// The view of a directory listing's outcome.
pub open spec fn listing_outcome(r: Result<Vec<OsPathFragment>, OsError>) -> Result<
    Seq<Seq<char>>,
    OsErrorView,
> {
    match r {
        Ok(v) => Ok(fragment_names(v@)),
        Err(e) => Err(e@),
    }
}

/// The view of an environment lookup.
pub open spec fn env_lookup(r: Option<OsValue>) -> Option<Seq<char>> {
    match r {
        Some(v) => Some(v@),
        None => None,
    }
}

/// OS-divergent path semantics (Darwin /var and /private/var, Windows separator and case).
/// A capability, passed in.
pub trait OsPathPolicy: Send + Sync {
    /// `c` is a canonical form this policy may give for the path `p`. A policy that
    /// states nothing of its canonical forms allows any.
    open spec fn alias_outcome(&self, p: Seq<char>, c: Seq<char>) -> bool {
        true
    }

    /// Resolve OS path aliasing for comparison (e.g. Darwin `/var/x` to `/private/var/x`).
    fn canonicalize_alias(&self, p: &HostPath) -> (r: HostPath)
        ensures
            self.alias_outcome(p@, r@),
    ;

    /// `r` is an outcome this policy may give when validating the raw fragment `raw`. A
    /// policy that states nothing of its outcomes allows any.
    open spec fn fragment_outcome(&self, raw: Seq<char>, r: Result<Seq<char>, OsErrorView>) -> bool {
        true
    }

    /// Validate a raw fragment: reject `..` and embedded separators. Fail-closed: a fragment
    /// it accepts holds no `/` and is not `..`.
    fn normalize_fragment(&self, raw: &str) -> (r: Result<OsPathFragment, OsError>)
        ensures
            self.fragment_outcome(raw@, outcome(r)),
            r matches Ok(f) ==> !f@.contains('/') && f@ != seq!['.', '.'],
    ;
}

/// A boxed policy is the policy it holds: each call goes to the boxed value.
impl OsPathPolicy for Box<dyn OsPathPolicy> {
    open spec fn alias_outcome(&self, p: Seq<char>, c: Seq<char>) -> bool {
        (**self).alias_outcome(p, c)
    }

    open spec fn fragment_outcome(&self, raw: Seq<char>, r: Result<Seq<char>, OsErrorView>) -> bool {
        (**self).fragment_outcome(raw, r)
    }

    fn canonicalize_alias(&self, p: &HostPath) -> (r: HostPath) {
        (**self).canonicalize_alias(p)
    }

    fn normalize_fragment(&self, raw: &str) -> (r: Result<OsPathFragment, OsError>) {
        (**self).normalize_fragment(raw)
    }
}

/// A process to spawn: a resolved program, its arguments, its EXACT environment (never
/// merged with the host environment) and its working directory.
#[derive(Clone, PartialEq, Eq, Debug)]
pub struct ProcessSpec {
    pub program: HostPath,
    pub args: Vec<String>,
    pub env: EnvMap,
    pub cwd: HostPath,
}

#[derive(Clone, Copy, PartialEq, Eq, Debug)]
pub struct ExitStatus {
    pub code: i32,
}

impl View for ExitStatus {
    type V = ExitStatus;

    open spec fn view(&self) -> ExitStatus {
        *self
    }
}

/// The one OS/syscall seam. Each method's contract says that what it returned is an
/// outcome the implementation allows for its arguments, through the implementation's
/// own outcome predicates.
pub trait System: Send + Sync {
    /// `r` is a possible result of reading `p`.
    spec fn read_outcome(&self, p: Seq<char>, r: Result<Seq<u8>, OsErrorView>) -> bool;

    /// `r` is a possible result of atomically writing `bytes` to `p`.
    spec fn write_atomic_outcome(
        &self,
        p: Seq<char>,
        bytes: Seq<u8>,
        r: Result<(), OsErrorView>,
    ) -> bool;

    /// `r` is a possible answer to whether `p` exists.
    spec fn path_exists_outcome(&self, p: Seq<char>, r: Result<bool, OsErrorView>) -> bool;

    /// `r` is a possible result of stat-ing `p` (following a final symlink).
    spec fn stat_outcome(&self, p: Seq<char>, r: Result<Metadata, OsErrorView>) -> bool;

    /// `r` is a possible result of lstat-ing `p` (not following a final symlink).
    spec fn lstat_outcome(&self, p: Seq<char>, r: Result<Metadata, OsErrorView>) -> bool;

    /// `r` is a possible listing of the directory `p`.
    spec fn list_dir_outcome(&self, p: Seq<char>, r: Result<Seq<Seq<char>>, OsErrorView>) -> bool;

    /// `r` is a possible raw target of the symlink `p`.
    spec fn read_link_outcome(&self, p: Seq<char>, r: Result<Seq<char>, OsErrorView>) -> bool;

    /// `r` is a possible canonical form of `p`.
    spec fn canonicalize_outcome(&self, p: Seq<char>, r: Result<Seq<char>, OsErrorView>) -> bool;

    /// `r` is a possible host value of the variable `name`.
    spec fn raw_env_outcome(&self, name: Seq<char>, r: Option<Seq<char>>) -> bool;

    /// `r` is a possible result of spawning `spec`.
    spec fn spawn_outcome(&self, spec: ProcessSpec, r: Result<ExitStatus, OsErrorView>) -> bool;

    fn read(&self, p: &HostPath) -> (r: Result<Vec<u8>, OsError>)
        ensures
            self.read_outcome(p@, outcome(r)),
    ;

    fn write_atomic(&self, p: &HostPath, bytes: &[u8]) -> (r: Result<(), OsError>)
        ensures
            self.write_atomic_outcome(p@, bytes@, outcome(r)),
    ;

    /// `Ok(false)` for a missing path, never NotFound-as-error.
    fn path_exists(&self, p: &HostPath) -> (r: Result<bool, OsError>)
        ensures
            self.path_exists_outcome(p@, outcome(r)),
            !(r matches Err(OsError::NotFound { .. })),
    ;

    /// Follows the final symlink.
    fn stat(&self, p: &HostPath) -> (r: Result<Metadata, OsError>)
        ensures
            self.stat_outcome(p@, outcome(r)),
    ;

    /// Does NOT follow the final symlink.
    fn lstat(&self, p: &HostPath) -> (r: Result<Metadata, OsError>)
        ensures
            self.lstat_outcome(p@, outcome(r)),
    ;

    /// Deterministic byte-sorted order.
    fn list_dir(&self, p: &HostPath) -> (r: Result<Vec<OsPathFragment>, OsError>)
        ensures
            self.list_dir_outcome(p@, listing_outcome(r)),
            r matches Ok(v) ==> vstd::relations::sorted_by(fragment_names(v@), crate::text::byte_order()),
    ;

    fn read_link(&self, p: &HostPath) -> (r: Result<RawSymlinkTarget, OsError>)
        ensures
            self.read_link_outcome(p@, outcome(r)),
    ;

    fn canonicalize(&self, p: &HostPath) -> (r: Result<HostPath, OsError>)
        ensures
            self.canonicalize_outcome(p@, outcome(r)),
    ;

    fn raw_env(&self, name: &EnvName) -> (r: Option<OsValue>)
        ensures
            self.raw_env_outcome(name@, env_lookup(r)),
    ;

    fn spawn(&self, spec: &ProcessSpec) -> (r: Result<ExitStatus, OsError>)
        ensures
            self.spawn_outcome(*spec, outcome(r)),
    ;

    /// The path policy this system applies.
    type Policy: OsPathPolicy + ?Sized;

    /// `c` is a canonical form that this system's path policy may give for `p`.
    spec fn policy_alias_in_use(&self, p: Seq<char>, c: Seq<char>) -> bool;

    /// `o` is an outcome that this system's path policy may give when validating `raw`.
    spec fn policy_fragment_in_use(&self, raw: Seq<char>, o: Result<Seq<char>, OsErrorView>) -> bool;

    /// The policy this system applies: its canonical forms and its fragment validation are
    /// this system's.
    fn path_policy(&self) -> (r: &Self::Policy)
        ensures
            forall|p: Seq<char>, c: Seq<char>| #[trigger] r.alias_outcome(p, c) == self.policy_alias_in_use(p, c),
            forall|raw: Seq<char>, o: Result<Seq<char>, OsErrorView>| #[trigger] r.fragment_outcome(raw, o)
                == self.policy_fragment_in_use(raw, o),
    ;
}

} // verus!
