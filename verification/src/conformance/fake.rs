//! The in-memory `FakeSystem`: the cross-platform reference implementation of `System`.

use vstd::prelude::*;
use vstd::relations::*;
use vstd::string::*;

use crate::text::{
    byte_order, contains_char, contains_dot_dot, has_dot_dot, has_prefix,
    last_index_of, lemma_byte_order_total, lemma_text_order, rfind_char, text_le, text_lt_exec,
    utf8,
};
use crate::text_map::{strictly_sorted, TextMap};
use crate::{
    env_map_view, fragment_names, EnvMap, EnvName, ExitStatus, FileKind, HostPath,
    Metadata, OsError, OsErrorView, OsPathFragment, OsPathPolicy, OsValue, ProcessSpec,
    RawSymlinkTarget, System,
};

verus! {

/// What the identity policy gives for the raw fragment `raw`: the fragment itself, or an
/// `Invalid` error naming it where it holds `..` or `/`.
pub open spec fn identity_fragment(raw: Seq<char>) -> Result<Seq<char>, OsErrorView> {
    if has_dot_dot(raw) || raw.contains('/') {
        Err(OsErrorView::Invalid { what: "fragment"@, detail: raw })
    } else {
        Ok(raw)
    }
}

/// The policy a fresh `FakeSystem` applies: paths are their own canonical form, and a
/// fragment holding `..` or `/` is refused.
struct IdentityPolicy;

impl OsPathPolicy for IdentityPolicy {
    open spec fn alias_outcome(&self, p: Seq<char>, c: Seq<char>) -> bool {
        c == p
    }

    open spec fn fragment_outcome(&self, raw: Seq<char>, r: Result<Seq<char>, OsErrorView>) -> bool {
        r == identity_fragment(raw)
    }

    fn canonicalize_alias(&self, p: &HostPath) -> (r: HostPath)
        ensures
            r@ == p@,
    {
        p.clone()
    }

    fn normalize_fragment(&self, raw: &str) -> (r: Result<OsPathFragment, OsError>)
        ensures
            has_dot_dot(raw@) || raw@.contains('/') ==> r is Err && r->Err_0@ == (OsErrorView::Invalid {
                what: "fragment"@,
                detail: raw@,
            }),
            !(has_dot_dot(raw@) || raw@.contains('/')) ==> r is Ok && r->Ok_0@ == raw@,
    {
        if contains_dot_dot(raw) || contains_char(raw, '/') {
            return Err(OsError::Invalid { what: "fragment".to_owned(), detail: raw.to_owned() });
        }
        Ok(OsPathFragment::new_unchecked(raw))
    }
}

struct FakeFile {
    bytes: Vec<u8>,
    mtime_nanos: i128,
    file_id: u64,
}

struct FakeLink {
    target: RawSymlinkTarget,
    mtime_nanos: i128,
    file_id: u64,
}

/// A regular file of the fake: its content, modification time and file id.
pub struct FileEntry {
    pub bytes: Seq<u8>,
    pub mtime_nanos: i128,
    pub file_id: u64,
}

/// A symlink of the fake: its raw target, modification time and file id.
pub struct LinkEntry {
    pub target: Seq<char>,
    pub mtime_nanos: i128,
    pub file_id: u64,
}

impl FakeFile {
    spec fn entry(self) -> FileEntry {
        FileEntry { bytes: self.bytes@, mtime_nanos: self.mtime_nanos, file_id: self.file_id }
    }
}

impl FakeLink {
    spec fn entry(self) -> LinkEntry {
        LinkEntry { target: self.target@, mtime_nanos: self.mtime_nanos, file_id: self.file_id }
    }
}

/// How many symlinks a path resolution follows before it reports a loop.
pub const SYMLINK_HOPS: usize = 8;

/// One symlink hop from `cur` to its raw `target`: an absolute target replaces the path, a
/// relative one resolves against the link's parent directory.
pub open spec fn hop(cur: Seq<char>, target: Seq<char>) -> Seq<char> {
    if target.len() > 0 && target[0] == '/' {
        target
    } else {
        match last_index_of(cur, '/') {
            Some(i) => cur.take(i) + seq!['/'] + target,
            None => target,
        }
    }
}

/// The path `cur` names after following at most `hops` symlinks; `None` for a loop (or a chain
/// longer than the bound).
pub open spec fn resolve_links(links: Map<Seq<char>, LinkEntry>, cur: Seq<char>, hops: nat) -> Option<
    Seq<char>,
>
    decreases hops,
{
    if hops == 0 {
        None
    } else if !links.contains_key(cur) {
        Some(cur)
    } else {
        resolve_links(links, hop(cur, links[cur].target), (hops - 1) as nat)
    }
}

/// The detail of the error for a symlink loop met while resolving `p`.
pub open spec fn loop_detail(p: Seq<char>) -> Seq<char> {
    "symlink loop at "@ + p
}

pub open spec fn not_found(p: Seq<char>) -> OsErrorView {
    OsErrorView::NotFound { path: p }
}

/// The metadata of a regular file.
pub open spec fn file_metadata(e: FileEntry) -> Metadata {
    Metadata {
        kind: FileKind::File,
        len: e.bytes.len() as u64,
        mtime_nanos: e.mtime_nanos,
        file_id: e.file_id,
    }
}

/// The metadata of a symlink itself: its length is the byte length of its raw target.
pub open spec fn link_metadata(e: LinkEntry) -> Metadata {
    Metadata {
        kind: FileKind::Symlink,
        len: utf8(e.target).len() as u64,
        mtime_nanos: e.mtime_nanos,
        file_id: e.file_id,
    }
}

/// What reading `p` gives: the content of the file it resolves to.
pub open spec fn fake_read(
    files: Map<Seq<char>, FileEntry>,
    links: Map<Seq<char>, LinkEntry>,
    p: Seq<char>,
) -> Result<Seq<u8>, OsErrorView> {
    match resolve_links(links, p, SYMLINK_HOPS as nat) {
        None => Err(OsErrorView::Io { detail: loop_detail(p) }),
        Some(k) => if files.contains_key(k) {
            Ok(files[k].bytes)
        } else {
            Err(not_found(p))
        },
    }
}

/// What stat-ing `p` gives: the metadata of the file it resolves to.
pub open spec fn fake_stat(
    files: Map<Seq<char>, FileEntry>,
    links: Map<Seq<char>, LinkEntry>,
    p: Seq<char>,
) -> Result<Metadata, OsErrorView> {
    match resolve_links(links, p, SYMLINK_HOPS as nat) {
        None => Err(OsErrorView::Io { detail: loop_detail(p) }),
        Some(k) => if files.contains_key(k) {
            Ok(file_metadata(files[k]))
        } else {
            Err(not_found(p))
        },
    }
}

/// What lstat-ing `p` gives: the symlink itself when `p` is one, else the file at `p`.
pub open spec fn fake_lstat(
    files: Map<Seq<char>, FileEntry>,
    links: Map<Seq<char>, LinkEntry>,
    p: Seq<char>,
) -> Result<Metadata, OsErrorView> {
    if links.contains_key(p) {
        Ok(link_metadata(links[p]))
    } else if files.contains_key(p) {
        Ok(file_metadata(files[p]))
    } else {
        Err(not_found(p))
    }
}

/// The entry name of `k` directly under the directory prefix `prefix`, if it is one.
pub open spec fn child_name(k: Seq<char>, prefix: Seq<char>) -> Option<Seq<char>> {
    if prefix.is_prefix_of(k) && !k.skip(prefix.len() as int).contains('/') {
        Some(k.skip(prefix.len() as int))
    } else {
        None
    }
}

/// The entry names directly under `prefix`, in the order of `keys`.
pub open spec fn children(keys: Seq<Seq<char>>, prefix: Seq<char>) -> Seq<Seq<char>>
    decreases keys.len(),
{
    if keys.len() == 0 {
        Seq::empty()
    } else {
        let rest = children(keys.drop_last(), prefix);
        match child_name(keys.last(), prefix) {
            Some(c) => rest.push(c),
            None => rest,
        }
    }
}

/// Whether some key lies (at any depth) under `prefix`.
pub open spec fn any_under(keys: Seq<Seq<char>>, prefix: Seq<char>) -> bool {
    exists|i: int| 0 <= i < keys.len() && prefix.is_prefix_of(#[trigger] keys[i])
}

/// What listing the directory `p` gives: the byte-sorted names of the files and symlinks
/// directly under it; `NotFound` when nothing at all lies under it.
pub open spec fn fake_list_dir(
    file_paths: Seq<Seq<char>>,
    link_paths: Seq<Seq<char>>,
    p: Seq<char>,
) -> Result<Seq<Seq<char>>, OsErrorView> {
    let prefix = p + seq!['/'];
    let names = children(file_paths, prefix) + children(link_paths, prefix);
    if names.len() == 0 && !any_under(file_paths, prefix) && !any_under(link_paths, prefix) {
        Err(not_found(p))
    } else {
        Ok(names.sort_by(byte_order()))
    }
}

/// What reading the symlink `p` gives: its raw target.
pub open spec fn fake_read_link(links: Map<Seq<char>, LinkEntry>, p: Seq<char>) -> Result<
    Seq<char>,
    OsErrorView,
> {
    if links.contains_key(p) {
        Ok(links[p].target)
    } else {
        Err(not_found(p))
    }
}

/// The refusal of `write_atomic`: the fake is read-only through `System`.
pub open spec fn write_refusal() -> OsErrorView {
    OsErrorView::Unsupported {
        op: "write_atomic"@,
        detail: "skeleton Fake is read-only via System; use put_file"@,
    }
}

/// The refusal of `spawn`: the fake has no process model.
pub open spec fn spawn_refusal() -> OsErrorView {
    OsErrorView::Unsupported { op: "spawn"@, detail: "Fake has no process model"@ }
}

/// Whether the fake clock and file ids are consistent: every entry was stamped at or before
/// the clock, every file id is positive, at most the last id handed out, and no two entries
/// share one.
pub open spec fn stamps_consistent(
    files: Map<Seq<char>, FileEntry>,
    links: Map<Seq<char>, LinkEntry>,
    tick: i128,
    next_id: u64,
) -> bool {
    &&& 0 <= tick
    &&& forall|k: Seq<char>| #[trigger]
        files.contains_key(k) ==> files[k].mtime_nanos <= tick && 0 < files[k].file_id <= next_id
    &&& forall|k: Seq<char>| #[trigger]
        links.contains_key(k) ==> links[k].mtime_nanos <= tick && 0 < links[k].file_id <= next_id
    &&& forall|a: Seq<char>, b: Seq<char>|
        #![trigger files.contains_key(a), files.contains_key(b)]
        files.contains_key(a) && files.contains_key(b) && a != b ==> files[a].file_id
            != files[b].file_id
    &&& forall|a: Seq<char>, b: Seq<char>|
        #![trigger links.contains_key(a), links.contains_key(b)]
        links.contains_key(a) && links.contains_key(b) && a != b ==> links[a].file_id
            != links[b].file_id
    &&& forall|a: Seq<char>, b: Seq<char>|
        #![trigger files.contains_key(a), links.contains_key(b)]
        files.contains_key(a) && links.contains_key(b) ==> files[a].file_id != links[b].file_id
}

/// The cross-platform reference impl. Models the shipped `System` surface faithfully:
/// fail-closed missingness, a fake clock so `Metadata` dirty-check fields are real, symlink
/// entries with RAW targets so `lstat` differs from `stat`, a constructed-in env snapshot (no
/// ambient state), and a pluggable `OsPathPolicy`. `write_atomic`/`spawn` are loud
/// `Unsupported`, never a silent success.
pub struct FakeSystem {
    files: TextMap<String, FakeFile>,
    symlinks: TextMap<String, FakeLink>,
    env: EnvMap,
    policy: Box<dyn OsPathPolicy>,
    tick: i128,
    next_id: u64,
}

impl FakeSystem {
    /// The regular files, by path.
    pub closed spec fn files(&self) -> Map<Seq<char>, FileEntry> {
        self.files.view().map_values(|f: FakeFile| f.entry())
    }

    /// The symlinks, by path.
    pub closed spec fn links(&self) -> Map<Seq<char>, LinkEntry> {
        self.symlinks.view().map_values(|l: FakeLink| l.entry())
    }

    /// The file paths, in increasing byte order.
    pub closed spec fn file_paths(&self) -> Seq<Seq<char>> {
        self.files.key_seq()
    }

    /// The symlink paths, in increasing byte order.
    pub closed spec fn link_paths(&self) -> Seq<Seq<char>> {
        self.symlinks.key_seq()
    }

    /// The constructed-in environment.
    pub closed spec fn env(&self) -> Map<Seq<char>, Seq<char>> {
        env_map_view(self.env.view())
    }

    /// The fake clock: the stamp of the latest write.
    pub closed spec fn clock(&self) -> i128 {
        self.tick
    }

    /// `c` is a canonical form that the installed path policy may give for `p`.
    pub closed spec fn policy_alias(&self, p: Seq<char>, c: Seq<char>) -> bool {
        (*self.policy).alias_outcome(p, c)
    }

    /// `o` is an outcome that the installed path policy may give when validating `raw`.
    pub closed spec fn policy_fragment(&self, raw: Seq<char>, o: Result<Seq<char>, OsErrorView>) -> bool {
        (*self.policy).fragment_outcome(raw, o)
    }

    /// The last file id handed out.
    pub closed spec fn last_id(&self) -> u64 {
        self.next_id
    }

    /// The clock and file ids are consistent. This is the type's invariant: every value
    /// built by this API has it, and `use_type_invariant(&fs)` gives it for any `fs`.
    #[verifier::type_invariant]
    pub open spec fn well_stamped(&self) -> bool {
        stamps_consistent(self.files(), self.links(), self.clock(), self.last_id())
    }

    /// The files after `put_file(p, bytes)` on this state.
    pub open spec fn files_after_put(&self, p: Seq<char>, bytes: Seq<u8>) -> Map<Seq<char>, FileEntry> {
        self.files().insert(
            p,
            FileEntry {
                bytes,
                mtime_nanos: (self.clock() + 1) as i128,
                file_id: if self.files().contains_key(p) {
                    self.files()[p].file_id
                } else {
                    (self.last_id() + 1) as u64
                },
            },
        )
    }

    /// The path sequences are the paths of the files and symlinks, each in strictly
    /// increasing byte order (so each is determined by its map).
    pub proof fn lemma_paths(self)
        ensures
            forall|k: Seq<char>| #[trigger] self.files().contains_key(k) <==> self.file_paths().contains(k),
            forall|k: Seq<char>| #[trigger] self.links().contains_key(k) <==> self.link_paths().contains(k),
            strictly_sorted(self.file_paths()),
            strictly_sorted(self.link_paths()),
    {
        self.files.lemma_view_facts();
        self.symlinks.lemma_view_facts();
    }

    /// An empty fake: no files, no symlinks, no environment, the identity path policy.
    pub fn new() -> (fs: Self)
        ensures
            fs.files() == Map::<Seq<char>, FileEntry>::empty(),
            fs.links() == Map::<Seq<char>, LinkEntry>::empty(),
            fs.file_paths() == Seq::<Seq<char>>::empty(),
            fs.link_paths() == Seq::<Seq<char>>::empty(),
            fs.env() == Map::<Seq<char>, Seq<char>>::empty(),
            fs.clock() == 0,
            fs.last_id() == 0,
            fs.well_stamped(),
            forall|p: Seq<char>, c: Seq<char>| #[trigger] fs.policy_alias(p, c) == (c == p),
            forall|raw: Seq<char>, o: Result<Seq<char>, OsErrorView>| #[trigger] fs.policy_fragment(raw, o)
                == (o == identity_fragment(raw)),
    {
        let fs = FakeSystem {
            files: TextMap::new(),
            symlinks: TextMap::new(),
            env: TextMap::new(),
            policy: Box::new(IdentityPolicy),
            tick: 0,
            next_id: 0,
        };
        assert(fs.files() =~= Map::<Seq<char>, FileEntry>::empty());
        assert(fs.links() =~= Map::<Seq<char>, LinkEntry>::empty());
        assert(fs.env() =~= Map::<Seq<char>, Seq<char>>::empty());
        fs
    }

    /// Rewrite-capable fixture edit: bumps the fake clock and keeps the path's file id stable
    /// (a new path gets a fresh id).
    pub fn put_file(&mut self, p: &str, bytes: &[u8])
        requires
            old(self).clock() < i128::MAX,
            !old(self).files().contains_key(p@) ==> old(self).last_id() < u64::MAX,
        ensures
            final(self).files() == old(self).files_after_put(p@, bytes@),
            final(self).links() == old(self).links(),
            final(self).link_paths() == old(self).link_paths(),
            final(self).env() == old(self).env(),
            final(self).clock() == old(self).clock() + 1,
            final(self).last_id() == if old(self).files().contains_key(p@) {
                old(self).last_id() as int
            } else {
                old(self).last_id() + 1
            },
            final(self).well_stamped(),
            forall|q: Seq<char>, c: Seq<char>| #[trigger] final(self).policy_alias(q, c) == old(self).policy_alias(q, c),
            forall|raw: Seq<char>, o: Result<Seq<char>, OsErrorView>| #[trigger] final(self).policy_fragment(raw, o)
                == old(self).policy_fragment(raw, o),
    {
        proof {
            use_type_invariant(&*self);
        }
        let ghost before = *self;
        self.tick = self.tick + 1;
        let file_id = match self.files.get_text(p) {
            Some(f) => f.file_id,
            None => {
                self.next_id = self.next_id + 1;
                self.next_id
            },
        };
        let mut files: TextMap<String, FakeFile> = TextMap::new();
        std::mem::swap(&mut files, &mut self.files);
        let content = vstd::slice::slice_to_vec(bytes);
        files.insert(p.to_owned(), FakeFile { bytes: content, mtime_nanos: self.tick, file_id });
        proof {
            let new_files = files.view().map_values(|f: FakeFile| f.entry());
            assert(new_files =~= before.files_after_put(p@, bytes@));
            assert(stamps_consistent(new_files, self.links(), self.tick, self.next_id)) by {
                let links = self.links();
                assert forall|a: Seq<char>, b: Seq<char>|
                    #![trigger new_files.contains_key(a), new_files.contains_key(b)]
                    new_files.contains_key(a) && new_files.contains_key(b) && a != b implies new_files[a].file_id
                        != new_files[b].file_id by {
                    if a != p@ && b != p@ {
                        assert(before.files().contains_key(a) && before.files().contains_key(b));
                    } else if a == p@ {
                        assert(before.files().contains_key(b));
                    } else {
                        assert(before.files().contains_key(a));
                    }
                }
                assert forall|a: Seq<char>, b: Seq<char>|
                    #![trigger new_files.contains_key(a), links.contains_key(b)]
                    new_files.contains_key(a) && links.contains_key(b) implies new_files[a].file_id
                        != links[b].file_id by {
                    if a != p@ {
                        assert(before.files().contains_key(a));
                    } else if before.files().contains_key(p@) {
                        assert(before.files().contains_key(a));
                    }
                }
            }
        }
        self.files = files;
    }

    /// `put_file`, as a builder.
    pub fn with_file(self, p: &str, bytes: &[u8]) -> (fs: Self)
        requires
            self.clock() < i128::MAX,
            !self.files().contains_key(p@) ==> self.last_id() < u64::MAX,
        ensures
            fs.files() == self.files_after_put(p@, bytes@),
            fs.links() == self.links(),
            fs.link_paths() == self.link_paths(),
            fs.env() == self.env(),
            fs.clock() == self.clock() + 1,
            fs.last_id() == if self.files().contains_key(p@) {
                self.last_id() as int
            } else {
                self.last_id() + 1
            },
            fs.well_stamped(),
            forall|q: Seq<char>, c: Seq<char>| #[trigger] fs.policy_alias(q, c) == self.policy_alias(q, c),
            forall|raw: Seq<char>, o: Result<Seq<char>, OsErrorView>| #[trigger] fs.policy_fragment(raw, o)
                == self.policy_fragment(raw, o),
    {
        let mut sys = self;
        sys.put_file(p, bytes);
        sys
    }

    /// A symlink entry with its RAW (possibly relative) target: never canonicalized. It gets
    /// a fresh file id and the next clock stamp.
    pub fn with_symlink(self, link: &str, raw_target: &str) -> (fs: Self)
        requires
            self.clock() < i128::MAX,
            self.last_id() < u64::MAX,
        ensures
            fs.links() == self.links().insert(
                link@,
                LinkEntry {
                    target: raw_target@,
                    mtime_nanos: (self.clock() + 1) as i128,
                    file_id: (self.last_id() + 1) as u64,
                },
            ),
            fs.files() == self.files(),
            fs.file_paths() == self.file_paths(),
            fs.env() == self.env(),
            fs.clock() == self.clock() + 1,
            fs.last_id() == self.last_id() + 1,
            fs.well_stamped(),
            forall|q: Seq<char>, c: Seq<char>| #[trigger] fs.policy_alias(q, c) == self.policy_alias(q, c),
            forall|raw: Seq<char>, o: Result<Seq<char>, OsErrorView>| #[trigger] fs.policy_fragment(raw, o)
                == self.policy_fragment(raw, o),
    {
        let mut sys = self;
        proof {
            use_type_invariant(&sys);
        }
        let ghost before = sys;
        sys.tick = sys.tick + 1;
        sys.next_id = sys.next_id + 1;
        let mut links: TextMap<String, FakeLink> = TextMap::new();
        std::mem::swap(&mut links, &mut sys.symlinks);
        let target = RawSymlinkTarget(raw_target.to_owned());
        links.insert(
            link.to_owned(),
            FakeLink { target, mtime_nanos: sys.tick, file_id: sys.next_id },
        );
        proof {
            let new_links = links.view().map_values(|l: FakeLink| l.entry());
            assert(new_links =~= before.links().insert(
                link@,
                LinkEntry {
                    target: raw_target@,
                    mtime_nanos: (before.clock() + 1) as i128,
                    file_id: (before.last_id() + 1) as u64,
                },
            ));
            let files = sys.files();
            assert(stamps_consistent(files, new_links, sys.tick, sys.next_id)) by {
                assert forall|a: Seq<char>, b: Seq<char>|
                    #![trigger new_links.contains_key(a), new_links.contains_key(b)]
                    new_links.contains_key(a) && new_links.contains_key(b) && a != b implies new_links[a].file_id
                        != new_links[b].file_id by {
                    if a != link@ && b != link@ {
                        assert(before.links().contains_key(a) && before.links().contains_key(b));
                    } else if a == link@ {
                        assert(before.links().contains_key(b));
                    } else {
                        assert(before.links().contains_key(a));
                    }
                }
                assert forall|a: Seq<char>, b: Seq<char>|
                    #![trigger files.contains_key(a), new_links.contains_key(b)]
                    files.contains_key(a) && new_links.contains_key(b) implies files[a].file_id
                        != new_links[b].file_id by {
                    if b != link@ {
                        assert(before.links().contains_key(b));
                    }
                }
            }
        }
        sys.symlinks = links;
        sys
    }

    /// Constructed-in env snapshot: the fake's `raw_env` reads THIS, never the ambient
    /// process env.
    pub fn with_env(self, name: &str, value: &str) -> (fs: Self)
        ensures
            fs.env() == self.env().insert(name@, value@),
            fs.files() == self.files(),
            fs.links() == self.links(),
            fs.file_paths() == self.file_paths(),
            fs.link_paths() == self.link_paths(),
            fs.clock() == self.clock(),
            fs.last_id() == self.last_id(),
            fs.well_stamped(),
            forall|q: Seq<char>, c: Seq<char>| #[trigger] fs.policy_alias(q, c) == self.policy_alias(q, c),
            forall|raw: Seq<char>, o: Result<Seq<char>, OsErrorView>| #[trigger] fs.policy_fragment(raw, o)
                == self.policy_fragment(raw, o),
    {
        let mut sys = self;
        proof {
            use_type_invariant(&sys);
        }
        let mut env: EnvMap = TextMap::new();
        std::mem::swap(&mut env, &mut sys.env);
        let ghost e0 = env.view();
        env.insert(EnvName(name.to_owned()), OsValue(value.to_owned()));
        assert(env_map_view(env.view()) =~= env_map_view(e0).insert(name@, value@));
        sys.env = env;
        sys
    }

    /// Per-OS path semantics on the fake: Darwin/Windows policies run here even where the
    /// test host is neither.
    pub fn with_policy(self, policy: Box<dyn OsPathPolicy>) -> (fs: Self)
        ensures
            fs.env() == self.env(),
            fs.files() == self.files(),
            fs.links() == self.links(),
            fs.file_paths() == self.file_paths(),
            fs.link_paths() == self.link_paths(),
            fs.clock() == self.clock(),
            fs.last_id() == self.last_id(),
            fs.well_stamped(),
            forall|p: Seq<char>, c: Seq<char>| #[trigger] fs.policy_alias(p, c) == policy.alias_outcome(p, c),
            forall|raw: Seq<char>, o: Result<Seq<char>, OsErrorView>| #[trigger] fs.policy_fragment(raw, o)
                == policy.fragment_outcome(raw, o),
    {
        let mut sys = self;
        proof {
            use_type_invariant(&sys);
        }
        let mut installed = policy;
        std::mem::swap(&mut sys.policy, &mut installed);
        sys
    }

    /// Follow symlinks (bounded); a relative target resolves against the link's parent
    /// directory.
    fn resolve(&self, p: &HostPath) -> (r: Result<String, OsError>)
        ensures
            match resolve_links(self.links(), p@, SYMLINK_HOPS as nat) {
                Some(k) => r is Ok && r->Ok_0@ == k,
                None => r is Err && r->Err_0@ == (OsErrorView::Io { detail: loop_detail(p@) }),
            },
    {
        let mut cur: String = p.as_str().to_owned();
        let mut n: usize = 0;
        while n < SYMLINK_HOPS
            invariant
                n <= SYMLINK_HOPS,
                resolve_links(self.links(), p@, SYMLINK_HOPS as nat) == resolve_links(
                    self.links(),
                    cur@,
                    (SYMLINK_HOPS - n) as nat,
                ),
            decreases SYMLINK_HOPS - n,
        {
            match self.symlinks.get_text(cur.as_str()) {
                None => {
                    return Ok(cur);
                },
                Some(l) => {
                    let next = next_hop(cur.as_str(), l.target.0.as_str());
                    cur = next;
                },
            }
            n = n + 1;
        }
        let mut detail = "symlink loop at ".to_owned();
        detail.append(p.as_str());
        Err(OsError::Io { detail })
    }

    fn file_meta(f: &FakeFile) -> (m: Metadata)
        ensures
            m == file_metadata(f.entry()),
    {
        Metadata {
            kind: FileKind::File,
            len: f.bytes.len() as u64,
            mtime_nanos: f.mtime_nanos,
            file_id: f.file_id,
        }
    }
}

impl Default for FakeSystem {
    /// An empty fake, as `FakeSystem::new` builds it.
    fn default() -> (fs: Self)
        ensures
            fs.files() == Map::<Seq<char>, FileEntry>::empty(),
            fs.links() == Map::<Seq<char>, LinkEntry>::empty(),
            fs.file_paths() == Seq::<Seq<char>>::empty(),
            fs.link_paths() == Seq::<Seq<char>>::empty(),
            fs.env() == Map::<Seq<char>, Seq<char>>::empty(),
            fs.clock() == 0,
            fs.last_id() == 0,
            fs.well_stamped(),
            forall|p: Seq<char>, c: Seq<char>| #[trigger] fs.policy_alias(p, c) == (c == p),
            forall|raw: Seq<char>, o: Result<Seq<char>, OsErrorView>| #[trigger] fs.policy_fragment(raw, o)
                == (o == identity_fragment(raw)),
    {
        FakeSystem::new()
    }
}

/// One symlink hop, as `hop` describes it.
fn next_hop(cur: &str, target: &str) -> (r: String)
    ensures
        r@ == hop(cur@, target@),
{
    if target.unicode_len() > 0 && target.get_char(0) == '/' {
        return target.to_owned();
    }
    let found = rfind_char(cur, '/');
    proof {
        crate::text::lemma_last_index_of(cur@, '/');
    }
    match found {
        Some(i) => {
            let mut s = cur.substring_char(0, i).to_owned();
            let sep = "/";
            proof {
                reveal_strlit("/");
            }
            s.append(sep);
            s.append(target);
            s
        },
        None => target.to_owned(),
    }
}

/// Appends to `out` the entries directly under `prefix` among the keys of `m`; reports
/// whether any key lies under `prefix` at all.
fn collect_children<V>(m: &TextMap<String, V>, prefix: &str, out: &mut Vec<OsPathFragment>) -> (under: bool)
    ensures
        fragment_names(final(out)@) == fragment_names(old(out)@) + children(m.key_seq(), prefix@),
        under == any_under(m.key_seq(), prefix@),
{
    let ghost ks = m.key_seq();
    let ghost out0 = fragment_names(out@);
    let plen = prefix.unicode_len();
    let mut under = false;
    let mut i: usize = 0;
    assert(ks.take(0) =~= Seq::<Seq<char>>::empty());
    while i < m.len()
        invariant
            ks == m.key_seq(),
            plen == prefix@.len(),
            i <= ks.len(),
            fragment_names(out@) == out0 + children(ks.take(i as int), prefix@),
            under == exists|j: int| 0 <= j < i && prefix@.is_prefix_of(#[trigger] ks[j]),
        decreases ks.len() - i,
    {
        let k = m.key_at(i).as_str();
        let ghost before = fragment_names(out@);
        if has_prefix(k, prefix) {
            under = true;
            let klen = k.unicode_len();
            let rest = k.substring_char(plen, klen);
            if !contains_char(rest, '/') {
                let f = OsPathFragment::new_unchecked(rest);
                out.push(f);
                assert(fragment_names(out@) =~= before.push(rest@));
            }
        }
        proof {
            let t = ks.take(i + 1);
            assert(t.drop_last() =~= ks.take(i as int));
            assert(t.last() == ks[i as int]);
            assert(k@.skip(prefix@.len() as int) =~= k@.subrange(prefix@.len() as int, k@.len() as int));
            assert(fragment_names(out@) =~= out0 + children(t, prefix@));
        }
        i = i + 1;
    }
    proof {
        assert(ks.take(i as int) =~= ks);
    }
    under
}

/// Sorts a listing by the names' raw bytes.
fn sort_fragments(v: Vec<OsPathFragment>) -> (r: Vec<OsPathFragment>)
    ensures
        fragment_names(r@) == fragment_names(v@).sort_by(byte_order()),
{
    broadcast use vstd::seq_lib::group_to_multiset_ensures;
    broadcast use vstd::multiset::group_multiset_axioms;

    let ghost src = fragment_names(v@);
    let mut out: Vec<OsPathFragment> = Vec::new();
    let mut i: usize = 0;
    proof {
        lemma_byte_order_total();
    }
    while i < v.len()
        invariant
            src == fragment_names(v@),
            i <= v@.len(),
            total_ordering(byte_order()),
            sorted_by(fragment_names(out@), byte_order()),
            fragment_names(out@).to_multiset() == src.take(i as int).to_multiset(),
        decreases v@.len() - i,
    {
        let x = v[i].clone();
        let mut j: usize = 0;
        while j < out.len() && !text_lt_exec(x.as_str(), out[j].as_str())
            invariant
                j <= out@.len(),
                forall|k: int| 0 <= k < j ==> text_le(#[trigger] fragment_names(out@)[k], x@),
            decreases out@.len() - j,
        {
            j = j + 1;
        }
        let ghost o0 = fragment_names(out@);
        out.insert(j, x);
        proof {
            let o1 = fragment_names(out@);
            assert(o1 =~= o0.insert(j as int, x@));
            let r = byte_order();
            assert forall|a: int, b: int| 0 <= a < b < o1.len() implies #[trigger] r(o1[a], o1[b]) by {
                if b < j {
                    assert(r(o0[a], o0[b]));
                } else if a > j {
                    assert(r(o0[a - 1], o0[b - 1]));
                } else if a == j {
                    if j < o0.len() {
                        lemma_text_order(x@, o0[j as int], o0[b - 1]);
                        assert(r(o0[j as int], o0[b - 1]) || j as int == b - 1);
                        lemma_text_order(o0[b - 1], o0[j as int], x@);
                        lemma_text_order(o0[b - 1], x@, o0[j as int]);
                    }
                } else {
                    assert(text_le(o0[a], x@));
                }
            }
            assert(o1.remove(j as int) =~= o0);
            assert(o1[j as int] == x@);
            vstd::seq_lib::to_multiset_remove(o1, j as int);
            o1.to_multiset_ensures();
            assert(o0.to_multiset() =~= o1.to_multiset().remove(x@));
            assert(o1.contains(x@));
            assert(o1.to_multiset().count(x@) > 0);
            assert(o1.to_multiset() =~= o0.to_multiset().insert(x@));
            assert(src.take(i + 1) =~= src.take(i as int).push(src[i as int]));
            assert(src[i as int] == x@);
            vstd::seq_lib::to_multiset_build(src.take(i as int), src[i as int]);
        }
        i = i + 1;
    }
    proof {
        assert(src.take(i as int) =~= src);
        src.lemma_sort_by_ensures(byte_order());
        vstd::seq_lib::lemma_sorted_unique(fragment_names(out@), src.sort_by(byte_order()), byte_order());
    }
    out
}

/// Any name directly under `prefix` comes from a key that lies under `prefix`.
proof fn lemma_children_under(keys: Seq<Seq<char>>, prefix: Seq<char>)
    ensures
        children(keys, prefix).len() > 0 ==> any_under(keys, prefix),
    decreases keys.len(),
{
    if keys.len() > 0 {
        let t = keys.drop_last();
        lemma_children_under(t, prefix);
        if child_name(keys.last(), prefix) is Some {
            assert(prefix.is_prefix_of(keys[keys.len() - 1]));
        } else if children(t, prefix).len() > 0 {
            let i = choose|i: int| 0 <= i < t.len() && prefix.is_prefix_of(#[trigger] t[i]);
            assert(keys[i] == t[i]);
        }
    }
}

/// Missingness is a typed error, never an empty value: for a path that is neither a file nor
/// a symlink, with nothing under it, `read`, `stat`, `lstat` and `list_dir` are `NotFound` at
/// that path and `path_exists` is `false`.
pub proof fn law_missing_is_notfound(fs: FakeSystem, p: Seq<char>)
    requires
        !fs.files().contains_key(p),
        !fs.links().contains_key(p),
        forall|k: Seq<char>| #[trigger] fs.files().contains_key(k) ==> !(p + seq!['/']).is_prefix_of(k),
        forall|k: Seq<char>| #[trigger] fs.links().contains_key(k) ==> !(p + seq!['/']).is_prefix_of(k),
    ensures
        fake_read(fs.files(), fs.links(), p) == Err::<Seq<u8>, OsErrorView>(not_found(p)),
        fake_stat(fs.files(), fs.links(), p) == Err::<Metadata, OsErrorView>(not_found(p)),
        fake_lstat(fs.files(), fs.links(), p) == Err::<Metadata, OsErrorView>(not_found(p)),
        fake_list_dir(fs.file_paths(), fs.link_paths(), p) == Err::<Seq<Seq<char>>, OsErrorView>(
            not_found(p),
        ),
        !(fs.files().contains_key(p) || fs.links().contains_key(p)),
{
    fs.lemma_paths();
    let prefix = p + seq!['/'];
    assert(!any_under(fs.file_paths(), prefix)) by {
        if any_under(fs.file_paths(), prefix) {
            let i = choose|i: int| 0 <= i < fs.file_paths().len() && prefix.is_prefix_of(#[trigger] fs.file_paths()[i]);
            assert(fs.file_paths().contains(fs.file_paths()[i]));
            assert(fs.files().contains_key(fs.file_paths()[i]));
        }
    }
    assert(!any_under(fs.link_paths(), prefix)) by {
        if any_under(fs.link_paths(), prefix) {
            let i = choose|i: int| 0 <= i < fs.link_paths().len() && prefix.is_prefix_of(#[trigger] fs.link_paths()[i]);
            assert(fs.link_paths().contains(fs.link_paths()[i]));
            assert(fs.links().contains_key(fs.link_paths()[i]));
        }
    }
    lemma_children_under(fs.file_paths(), prefix);
    lemma_children_under(fs.link_paths(), prefix);
}

/// A read gives back what the last write wrote: after `put_file(p, bytes)` on a path that is
/// not a symlink, reading `p` gives `bytes` and stat-ing it reports a file of that length.
pub proof fn law_read_after_put(fs: FakeSystem, p: Seq<char>, bytes: Seq<u8>)
    requires
        !fs.links().contains_key(p),
    ensures
        fake_read(fs.files_after_put(p, bytes), fs.links(), p) == Ok::<Seq<u8>, OsErrorView>(bytes),
        fake_stat(fs.files_after_put(p, bytes), fs.links(), p) matches Ok(m) && m.kind
            == FileKind::File && m.len == bytes.len() as u64,
{
}

/// A rewrite is visible to the dirty check: rewriting an existing file keeps its file id and
/// strictly advances its mtime, whatever the new length.
pub proof fn law_rewrite_keeps_id_and_advances_mtime(fs: FakeSystem, p: Seq<char>, bytes: Seq<u8>)
    requires
        fs.well_stamped(),
        fs.files().contains_key(p),
        fs.clock() < i128::MAX,
    ensures
        file_metadata(fs.files_after_put(p, bytes)[p]).file_id == file_metadata(fs.files()[p]).file_id,
        file_metadata(fs.files_after_put(p, bytes)[p]).mtime_nanos > file_metadata(
            fs.files()[p],
        ).mtime_nanos,
{
}

/// File ids are identities: no two entries (files or symlinks) share one.
pub proof fn law_file_ids_distinct(fs: FakeSystem, a: Seq<char>, b: Seq<char>)
    requires
        fs.well_stamped(),
    ensures
        fs.files().contains_key(a) && fs.files().contains_key(b) && a != b ==> fs.files()[a].file_id
            != fs.files()[b].file_id,
        fs.links().contains_key(a) && fs.links().contains_key(b) && a != b ==> fs.links()[a].file_id
            != fs.links()[b].file_id,
        fs.files().contains_key(a) && fs.links().contains_key(b) ==> fs.files()[a].file_id
            != fs.links()[b].file_id,
{
}

/// `lstat` does not follow a final symlink and `read_link` gives its target raw, whether or
/// not the target exists.
pub proof fn law_lstat_reports_the_link(fs: FakeSystem, p: Seq<char>)
    requires
        fs.links().contains_key(p),
    ensures
        fake_lstat(fs.files(), fs.links(), p) == Ok::<Metadata, OsErrorView>(
            link_metadata(fs.links()[p]),
        ),
        link_metadata(fs.links()[p]).kind == FileKind::Symlink,
        fake_read_link(fs.links(), p) == Ok::<Seq<char>, OsErrorView>(fs.links()[p].target),
{
}

/// A relative symlink target resolves against the link's parent directory.
pub proof fn law_relative_target_resolves_in_parent(dir: Seq<char>, name: Seq<char>, target: Seq<char>)
    requires
        !name.contains('/'),
        !(target.len() > 0 && target[0] == '/'),
    ensures
        hop(dir + seq!['/'] + name, target) == dir + seq!['/'] + target,
{
    let cur = dir + seq!['/'] + name;
    let k = dir.len() as int;
    assert(cur[k] == '/');
    crate::text::lemma_last_index_of(cur, '/');
    let i = last_index_of(cur, '/')->0;
    assert(cur.contains('/'));
    if i > k {
        assert(name[i - k - 1] == cur[i]);
    } else if i < k {
        assert(cur[k] == '/');
    }
    assert(cur.take(k) =~= dir);
}

/// `stat` follows a final symlink: when `p` resolves to the file `k`, stat-ing `p` reports
/// the metadata of `k`; when it resolves to nothing (a dangling link), a typed `NotFound`.
pub proof fn law_stat_follows_links(fs: FakeSystem, p: Seq<char>, k: Seq<char>)
    requires
        resolve_links(fs.links(), p, SYMLINK_HOPS as nat) == Some(k),
    ensures
        fs.files().contains_key(k) ==> fake_stat(fs.files(), fs.links(), p) == Ok::<
            Metadata,
            OsErrorView,
        >(file_metadata(fs.files()[k])),
        !fs.files().contains_key(k) ==> fake_stat(fs.files(), fs.links(), p) == Err::<
            Metadata,
            OsErrorView,
        >(not_found(p)),
{
}

proof fn lemma_self_loop(links: Map<Seq<char>, LinkEntry>, p: Seq<char>, hops: nat)
    requires
        links.contains_key(p),
        links[p].target == p,
        p.len() > 0 && p[0] == '/',
    ensures
        resolve_links(links, p, hops) is None,
    decreases hops,
{
    if hops > 0 {
        lemma_self_loop(links, p, (hops - 1) as nat);
    }
}

/// The identity policy that `new` and `default` install makes `canonicalize` hand every
/// path back unchanged.
pub proof fn law_identity_policy_canonicalizes_to_itself(
    fs: FakeSystem,
    p: Seq<char>,
    r: Result<Seq<char>, OsErrorView>,
)
    requires
        forall|q: Seq<char>, c: Seq<char>| #[trigger] fs.policy_alias(q, c) == (c == q),
        fs.canonicalize_outcome(p, r),
    ensures
        r == Ok::<Seq<char>, OsErrorView>(p),
{
}

/// A symlink loop is a typed `Io` error naming the path, never a hang or an empty value.
pub proof fn law_symlink_loop_is_an_error(fs: FakeSystem, p: Seq<char>)
    requires
        fs.links().contains_key(p),
        fs.links()[p].target == p,
        p.len() > 0 && p[0] == '/',
    ensures
        fake_read(fs.files(), fs.links(), p) == Err::<Seq<u8>, OsErrorView>(
            OsErrorView::Io { detail: loop_detail(p) },
        ),
        fake_stat(fs.files(), fs.links(), p) == Err::<Metadata, OsErrorView>(
            OsErrorView::Io { detail: loop_detail(p) },
        ),
{
    lemma_self_loop(fs.links(), p, SYMLINK_HOPS as nat);
}

/// A listing is in raw byte order and holds exactly the entries directly under the directory.
pub proof fn law_listing_is_byte_sorted(file_paths: Seq<Seq<char>>, link_paths: Seq<Seq<char>>, p: Seq<char>)
    ensures
        fake_list_dir(file_paths, link_paths, p) matches Ok(names) ==> {
            &&& sorted_by(names, byte_order())
            &&& names.to_multiset() == (children(file_paths, p + seq!['/']) + children(
                link_paths,
                p + seq!['/'],
            )).to_multiset()
        },
{
    lemma_byte_order_total();
    let prefix = p + seq!['/'];
    let names = children(file_paths, prefix) + children(link_paths, prefix);
    names.lemma_sort_by_ensures(byte_order());
}

/// The path of the entry `name` directly inside the directory `dir`.
pub open spec fn entry_path(dir: Seq<char>, name: Seq<char>) -> Seq<char> {
    dir + seq!['/'] + name
}

/// `child_name` picks out exactly the keys that are `prefix` followed by a name with no
/// separator.
proof fn lemma_child_name(k: Seq<char>, prefix: Seq<char>, n: Seq<char>)
    ensures
        child_name(k, prefix) == Some(n) <==> (!n.contains('/') && k == prefix + n),
{
    if !n.contains('/') && k == prefix + n {
        assert(k.subrange(0, prefix.len() as int) =~= prefix);
        assert(k.skip(prefix.len() as int) =~= n);
    }
    if child_name(k, prefix) == Some(n) {
        assert(k =~= prefix + k.skip(prefix.len() as int));
    }
}

/// A name is among the children of `keys` exactly when `prefix` followed by it is a key
/// and it holds no separator.
proof fn lemma_children_contains(keys: Seq<Seq<char>>, prefix: Seq<char>, n: Seq<char>)
    ensures
        children(keys, prefix).contains(n) <==> (!n.contains('/') && keys.contains(prefix + n)),
    decreases keys.len(),
{
    if keys.len() > 0 {
        let t = keys.drop_last();
        let k = keys.last();
        lemma_children_contains(t, prefix, n);
        lemma_child_name(k, prefix, n);
        assert(keys =~= t.push(k));
        assert(keys.contains(prefix + n) <==> (t.contains(prefix + n) || k == prefix + n)) by {
            if keys.contains(prefix + n) {
                let i = choose|i: int| 0 <= i < keys.len() && keys[i] == prefix + n;
                if i < t.len() {
                    assert(t[i] == keys[i]);
                }
            }
            if t.contains(prefix + n) {
                let i = choose|i: int| 0 <= i < t.len() && t[i] == prefix + n;
                assert(keys[i] == t[i]);
            }
            if k == prefix + n {
                assert(keys[keys.len() - 1] == k);
            }
        }
        let rest = children(t, prefix);
        match child_name(k, prefix) {
            Some(c) => {
                assert(rest.push(c).contains(n) <==> (rest.contains(n) || c == n)) by {
                    if rest.push(c).contains(n) {
                        let i = choose|i: int| 0 <= i < rest.push(c).len() && rest.push(c)[i] == n;
                        if i < rest.len() {
                            assert(rest[i] == n);
                        }
                    }
                    if rest.contains(n) {
                        let i = choose|i: int| 0 <= i < rest.len() && rest[i] == n;
                        assert(rest.push(c)[i] == n);
                    }
                    if c == n {
                        assert(rest.push(c)[rest.len() as int] == n);
                    }
                }
                if c != n {
                    assert(!(k == prefix + n && !n.contains('/'))) by {
                        lemma_child_name(k, prefix, c);
                    }
                }
            },
            None => {},
        }
    }
}

/// An element of a concatenation comes from one of its parts, and each part's elements are in it.
proof fn lemma_concat_contains<T>(a: Seq<T>, b: Seq<T>, x: T)
    ensures
        (a + b).contains(x) <==> (a.contains(x) || b.contains(x)),
{
    if (a + b).contains(x) {
        let i = choose|i: int| 0 <= i < (a + b).len() && (a + b)[i] == x;
        if i < a.len() {
            assert(a[i] == x);
        } else {
            assert(b[i - a.len()] == x);
        }
    }
    if a.contains(x) {
        let i = choose|i: int| 0 <= i < a.len() && a[i] == x;
        assert((a + b)[i] == x);
    }
    if b.contains(x) {
        let i = choose|i: int| 0 <= i < b.len() && b[i] == x;
        assert((a + b)[i + a.len()] == x);
    }
}

/// A listing names every entry directly inside the directory and nothing else: a file or
/// symlink at `p/n`, with no separator in `n`, makes the listing of `p` succeed with `n` in
/// it, whatever `n` looks like; each listed name is such an entry; and a failed listing is
/// `NotFound` at `p` with no file or symlink anywhere under `p`.
pub proof fn law_listing_names_every_entry(
    fs: FakeSystem,
    p: Seq<char>,
    r: Result<Seq<Seq<char>>, OsErrorView>,
)
    requires
        fs.list_dir_outcome(p, r),
    ensures
        forall|n: Seq<char>|
            #![trigger fs.files().contains_key(entry_path(p, n))]
            #![trigger fs.links().contains_key(entry_path(p, n))]
            !n.contains('/') && (fs.files().contains_key(entry_path(p, n)) || fs.links().contains_key(
                entry_path(p, n),
            )) ==> r is Ok && r->Ok_0.contains(n),
        r is Ok ==> forall|i: int|
            0 <= i < r->Ok_0.len() ==> !(#[trigger] r->Ok_0[i]).contains('/') && (fs.files().contains_key(
                entry_path(p, r->Ok_0[i]),
            ) || fs.links().contains_key(entry_path(p, r->Ok_0[i]))),
        r is Err ==> r == Err::<Seq<Seq<char>>, OsErrorView>(not_found(p)) && forall|k: Seq<char>|
            #![trigger fs.files().contains_key(k)]
            #![trigger fs.links().contains_key(k)]
            fs.files().contains_key(k) || fs.links().contains_key(k) ==> !(p + seq!['/']).is_prefix_of(k),
{
    fs.lemma_paths();
    lemma_byte_order_total();
    let prefix = p + seq!['/'];
    let fc = children(fs.file_paths(), prefix);
    let lc = children(fs.link_paths(), prefix);
    let names = fc + lc;
    names.lemma_sort_by_ensures(byte_order());
    let sorted = names.sort_by(byte_order());
    names.to_multiset_ensures();
    sorted.to_multiset_ensures();
    assert forall|n: Seq<char>|
        #![trigger fs.files().contains_key(entry_path(p, n))]
        #![trigger fs.links().contains_key(entry_path(p, n))]
        !n.contains('/') && (fs.files().contains_key(entry_path(p, n)) || fs.links().contains_key(
            entry_path(p, n),
        )) implies r is Ok && r->Ok_0.contains(n) by {
        assert(entry_path(p, n) == prefix + n);
        lemma_children_contains(fs.file_paths(), prefix, n);
        lemma_children_contains(fs.link_paths(), prefix, n);
        lemma_concat_contains(fc, lc, n);
        assert(names.contains(n));
        assert(names.len() > 0);
        assert(names.to_multiset().count(n) > 0);
        assert(sorted.to_multiset().count(n) > 0);
    }
    if r is Ok {
        assert(r->Ok_0 == sorted);
        assert forall|i: int| 0 <= i < sorted.len() implies !(#[trigger] sorted[i]).contains('/') && (
        fs.files().contains_key(entry_path(p, sorted[i])) || fs.links().contains_key(
            entry_path(p, sorted[i]),
        )) by {
            let n = sorted[i];
            assert(sorted.contains(n));
            assert(names.contains(n));
            assert(entry_path(p, n) == prefix + n);
            lemma_children_contains(fs.file_paths(), prefix, n);
            lemma_children_contains(fs.link_paths(), prefix, n);
            lemma_concat_contains(fc, lc, n);
        }
    }
    if r is Err {
        assert forall|k: Seq<char>|
            #![trigger fs.files().contains_key(k)]
            #![trigger fs.links().contains_key(k)]
            fs.files().contains_key(k) || fs.links().contains_key(k) implies !prefix.is_prefix_of(k) by {
            if fs.files().contains_key(k) {
                let i = choose|i: int| 0 <= i < fs.file_paths().len() && fs.file_paths()[i] == k;
                assert(prefix.is_prefix_of(fs.file_paths()[i]) ==> any_under(fs.file_paths(), prefix));
            } else {
                let i = choose|i: int| 0 <= i < fs.link_paths().len() && fs.link_paths()[i] == k;
                assert(prefix.is_prefix_of(fs.link_paths()[i]) ==> any_under(fs.link_paths(), prefix));
            }
        }
    }
}

/// Reading succeeds only at a file: an `Ok` read of `p` gives the bytes of the file that `p`
/// resolves to; when `p` resolves to a path that holds no file (a missing path, a dangling
/// symlink) the read is `NotFound` at `p`; a loop is an error; and a plain file that is no
/// symlink reads as its own bytes.
pub proof fn law_read_gives_the_resolved_file(fs: FakeSystem, p: Seq<char>, r: Result<Seq<u8>, OsErrorView>)
    requires
        fs.read_outcome(p, r),
    ensures
        r is Ok ==> resolve_links(fs.links(), p, SYMLINK_HOPS as nat) is Some && fs.files().contains_key(
            resolve_links(fs.links(), p, SYMLINK_HOPS as nat)->0,
        ) && r->Ok_0 == fs.files()[resolve_links(fs.links(), p, SYMLINK_HOPS as nat)->0].bytes,
        resolve_links(fs.links(), p, SYMLINK_HOPS as nat) is Some && !fs.files().contains_key(
            resolve_links(fs.links(), p, SYMLINK_HOPS as nat)->0,
        ) ==> r == Err::<Seq<u8>, OsErrorView>(not_found(p)),
        resolve_links(fs.links(), p, SYMLINK_HOPS as nat) is None ==> r is Err,
        fs.files().contains_key(p) && !fs.links().contains_key(p) ==> r == Ok::<Seq<u8>, OsErrorView>(
            fs.files()[p].bytes,
        ),
{
}

/// `stat` follows symlinks to a file: an `Ok` stat of `p` is the metadata of the file that `p`
/// resolves to, of kind `File`; a path that resolves to no file is `NotFound` at `p`; and
/// `stat` succeeds exactly where `read` does, reporting the length of what `read` gives.
pub proof fn law_stat_describes_what_read_gives(
    fs: FakeSystem,
    p: Seq<char>,
    r: Result<Metadata, OsErrorView>,
    b: Result<Seq<u8>, OsErrorView>,
)
    requires
        fs.stat_outcome(p, r),
        fs.read_outcome(p, b),
    ensures
        r is Ok ==> resolve_links(fs.links(), p, SYMLINK_HOPS as nat) is Some && fs.files().contains_key(
            resolve_links(fs.links(), p, SYMLINK_HOPS as nat)->0,
        ) && r->Ok_0 == file_metadata(fs.files()[resolve_links(fs.links(), p, SYMLINK_HOPS as nat)->0])
            && r->Ok_0.kind == FileKind::File,
        resolve_links(fs.links(), p, SYMLINK_HOPS as nat) is Some && !fs.files().contains_key(
            resolve_links(fs.links(), p, SYMLINK_HOPS as nat)->0,
        ) ==> r == Err::<Metadata, OsErrorView>(not_found(p)),
        r is Ok <==> b is Ok,
        r is Ok ==> r->Ok_0.len == b->Ok_0.len() as u64,
        r is Err ==> r->Err_0 == b->Err_0,
{
}

/// The fake never writes or spawns through `System`: `write_atomic` and `spawn` are loud
/// `Unsupported` refusals naming the operation, whatever their arguments.
pub proof fn law_refusals_are_loud(
    fs: FakeSystem,
    p: Seq<char>,
    bytes: Seq<u8>,
    w: Result<(), OsErrorView>,
    spec: ProcessSpec,
    x: Result<ExitStatus, OsErrorView>,
)
    requires
        fs.write_atomic_outcome(p, bytes, w),
        fs.spawn_outcome(spec, x),
    ensures
        w matches Err(OsErrorView::Unsupported { op, .. }) && op == "write_atomic"@,
        x matches Err(OsErrorView::Unsupported { op, .. }) && op == "spawn"@,
{
}

/// `lstat` answers for `p` itself: a symlink at `p` reports the link (kind `Symlink`), a plain
/// file at `p` its own metadata, and a path that is neither is `NotFound` at `p`, never a
/// default value.
pub proof fn law_lstat_answers_for_the_path_itself(fs: FakeSystem, p: Seq<char>, r: Result<Metadata, OsErrorView>)
    requires
        fs.lstat_outcome(p, r),
    ensures
        fs.links().contains_key(p) ==> r == Ok::<Metadata, OsErrorView>(link_metadata(fs.links()[p]))
            && r->Ok_0.kind == FileKind::Symlink,
        !fs.links().contains_key(p) && fs.files().contains_key(p) ==> r == Ok::<Metadata, OsErrorView>(
            file_metadata(fs.files()[p]),
        ) && r->Ok_0.kind == FileKind::File,
        !fs.links().contains_key(p) && !fs.files().contains_key(p) ==> r == Err::<Metadata, OsErrorView>(
            not_found(p),
        ),
{
}

/// `read_link` answers only for a symlink: the raw target of the symlink at `p`, and
/// `NotFound` at `p` for any other path; so it succeeds exactly where `lstat` reports a
/// symlink.
pub proof fn law_read_link_answers_only_for_symlinks(
    fs: FakeSystem,
    p: Seq<char>,
    r: Result<Seq<char>, OsErrorView>,
    m: Result<Metadata, OsErrorView>,
)
    requires
        fs.read_link_outcome(p, r),
        fs.lstat_outcome(p, m),
    ensures
        fs.links().contains_key(p) ==> r == Ok::<Seq<char>, OsErrorView>(fs.links()[p].target),
        !fs.links().contains_key(p) ==> r == Err::<Seq<char>, OsErrorView>(not_found(p)),
        r is Ok <==> (m is Ok && m->Ok_0.kind == FileKind::Symlink),
{
}

/// `path_exists` has `lstat` semantics: it is `Ok(true)` exactly when `p` itself is a file or
/// a symlink (a path that is only a prefix of one does not count), and it agrees with whether
/// `lstat` of `p` succeeds.
pub proof fn law_exists_is_lstat_success(
    fs: FakeSystem,
    p: Seq<char>,
    e: Result<bool, OsErrorView>,
    m: Result<Metadata, OsErrorView>,
)
    requires
        fs.path_exists_outcome(p, e),
        fs.lstat_outcome(p, m),
    ensures
        e == Ok::<bool, OsErrorView>(fs.files().contains_key(p) || fs.links().contains_key(p)),
        e == Ok::<bool, OsErrorView>(m is Ok),
{
}

impl System for FakeSystem {
    open spec fn read_outcome(&self, p: Seq<char>, r: Result<Seq<u8>, OsErrorView>) -> bool {
        r == fake_read(self.files(), self.links(), p)
    }

    open spec fn write_atomic_outcome(
        &self,
        p: Seq<char>,
        bytes: Seq<u8>,
        r: Result<(), OsErrorView>,
    ) -> bool {
        r == Err::<(), OsErrorView>(write_refusal())
    }

    open spec fn path_exists_outcome(&self, p: Seq<char>, r: Result<bool, OsErrorView>) -> bool {
        r == Ok::<bool, OsErrorView>(self.files().contains_key(p) || self.links().contains_key(p))
    }

    open spec fn stat_outcome(&self, p: Seq<char>, r: Result<Metadata, OsErrorView>) -> bool {
        r == fake_stat(self.files(), self.links(), p)
    }

    open spec fn lstat_outcome(&self, p: Seq<char>, r: Result<Metadata, OsErrorView>) -> bool {
        r == fake_lstat(self.files(), self.links(), p)
    }

    open spec fn list_dir_outcome(&self, p: Seq<char>, r: Result<Seq<Seq<char>>, OsErrorView>) -> bool {
        r == fake_list_dir(self.file_paths(), self.link_paths(), p)
    }

    open spec fn read_link_outcome(&self, p: Seq<char>, r: Result<Seq<char>, OsErrorView>) -> bool {
        r == fake_read_link(self.links(), p)
    }

    open spec fn canonicalize_outcome(&self, p: Seq<char>, r: Result<Seq<char>, OsErrorView>) -> bool {
        r matches Ok(c) && self.policy_alias(p, c)
    }

    open spec fn raw_env_outcome(&self, name: Seq<char>, r: Option<Seq<char>>) -> bool {
        r == if self.env().contains_key(name) {
            Some(self.env()[name])
        } else {
            None
        }
    }

    open spec fn spawn_outcome(&self, spec: ProcessSpec, r: Result<ExitStatus, OsErrorView>) -> bool {
        r == Err::<ExitStatus, OsErrorView>(spawn_refusal())
    }

    fn read(&self, p: &HostPath) -> (r: Result<Vec<u8>, OsError>) {
        let key = match self.resolve(p) {
            Ok(k) => k,
            Err(e) => {
                return Err(e);
            },
        };
        match self.files.get_text(key.as_str()) {
            Some(f) => {
                let b = f.bytes.clone();
                assert(b@ =~= f.bytes@);
                Ok(b)
            },
            None => Err(OsError::NotFound { path: p.as_str().to_owned() }),
        }
    }

    fn write_atomic(&self, p: &HostPath, bytes: &[u8]) -> (r: Result<(), OsError>) {
        Err(
            OsError::Unsupported {
                op: "write_atomic",
                detail: "skeleton Fake is read-only via System; use put_file".to_owned(),
            },
        )
    }

    /// lstat semantics: a dangling link EXISTS.
    fn path_exists(&self, p: &HostPath) -> (r: Result<bool, OsError>) {
        let in_files = self.files.get_text(p.as_str()).is_some();
        let in_links = self.symlinks.get_text(p.as_str()).is_some();
        Ok(in_files || in_links)
    }

    fn stat(&self, p: &HostPath) -> (r: Result<Metadata, OsError>) {
        let key = match self.resolve(p) {
            Ok(k) => k,
            Err(e) => {
                return Err(e);
            },
        };
        match self.files.get_text(key.as_str()) {
            Some(f) => Ok(Self::file_meta(f)),
            None => Err(OsError::NotFound { path: p.as_str().to_owned() }),
        }
    }

    fn lstat(&self, p: &HostPath) -> (r: Result<Metadata, OsError>) {
        if let Some(l) = self.symlinks.get_text(p.as_str()) {
            return Ok(
                Metadata {
                    kind: FileKind::Symlink,
                    len: l.target.0.as_str().as_bytes().len() as u64,
                    mtime_nanos: l.mtime_nanos,
                    file_id: l.file_id,
                },
            );
        }
        match self.files.get_text(p.as_str()) {
            Some(f) => Ok(Self::file_meta(f)),
            None => Err(OsError::NotFound { path: p.as_str().to_owned() }),
        }
    }

    fn list_dir(&self, p: &HostPath) -> (r: Result<Vec<OsPathFragment>, OsError>) {
        let mut prefix = p.as_str().to_owned();
        let sep = "/";
        proof {
            reveal_strlit("/");
        }
        prefix.append(sep);
        let mut out: Vec<OsPathFragment> = Vec::new();
        assert(fragment_names(out@) =~= Seq::<Seq<char>>::empty());
        let under_files = collect_children(&self.files, prefix.as_str(), &mut out);
        let under_links = collect_children(&self.symlinks, prefix.as_str(), &mut out);
        let ghost pre = p@ + seq!['/'];
        assert(prefix@ == pre);
        let ghost names = children(self.file_paths(), pre) + children(self.link_paths(), pre);
        assert(fragment_names(out@) =~= names);
        if out.len() == 0 && !under_files && !under_links {
            return Err(OsError::NotFound { path: p.as_str().to_owned() });
        }
        proof {
            law_listing_is_byte_sorted(self.file_paths(), self.link_paths(), p@);
        }
        Ok(sort_fragments(out))
    }

    fn read_link(&self, p: &HostPath) -> (r: Result<RawSymlinkTarget, OsError>) {
        match self.symlinks.get_text(p.as_str()) {
            Some(l) => Ok(l.target.clone()),
            None => Err(OsError::NotFound { path: p.as_str().to_owned() }),
        }
    }

    fn canonicalize(&self, p: &HostPath) -> (r: Result<HostPath, OsError>) {
        Ok(self.policy.canonicalize_alias(p))
    }

    fn raw_env(&self, name: &EnvName) -> (r: Option<OsValue>) {
        match self.env.get(name) {
            Some(v) => Some(v.clone()),
            None => None,
        }
    }

    fn spawn(&self, spec: &ProcessSpec) -> (r: Result<ExitStatus, OsError>) {
        Err(OsError::Unsupported { op: "spawn", detail: "Fake has no process model".to_owned() })
    }

    type Policy = Box<dyn OsPathPolicy>;

    open spec fn policy_alias_in_use(&self, p: Seq<char>, c: Seq<char>) -> bool {
        self.policy_alias(p, c)
    }

    open spec fn policy_fragment_in_use(&self, raw: Seq<char>, o: Result<Seq<char>, OsErrorView>) -> bool {
        self.policy_fragment(raw, o)
    }

    fn path_policy(&self) -> (r: &Box<dyn OsPathPolicy>) {
        &self.policy
    }
}

} // verus!
