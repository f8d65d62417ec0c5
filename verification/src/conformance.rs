//! The in-memory `FakeSystem` and the parameterized conformance checks: the ONE suite every
//! `System` implementation is held to. Each check returns whether the property held of what
//! the system returned.

use vstd::prelude::*;
use vstd::relations::*;

mod fake;

pub use fake::{
    any_under, child_name, children, fake_list_dir, fake_lstat, fake_read, fake_read_link,
    fake_stat, file_metadata, hop, identity_fragment, link_metadata, loop_detail, not_found, resolve_links,
    spawn_refusal, stamps_consistent, write_refusal, FakeSystem, FileEntry, LinkEntry,
    SYMLINK_HOPS, entry_path, law_exists_is_lstat_success, law_file_ids_distinct, law_identity_policy_canonicalizes_to_itself,
    law_listing_names_every_entry, law_lstat_answers_for_the_path_itself, law_read_gives_the_resolved_file,
    law_read_link_answers_only_for_symlinks, law_refusals_are_loud, law_stat_describes_what_read_gives,
    law_listing_is_byte_sorted, law_lstat_reports_the_link,
    law_missing_is_notfound, law_read_after_put, law_relative_target_resolves_in_parent,
    law_rewrite_keeps_id_and_advances_mtime, law_stat_follows_links, law_symlink_loop_is_an_error,
};

use crate::text::{byte_order, bytes_eq, text_eq, text_le, text_lt_exec};
use crate::{FileKind, HostPath, Metadata, OsError, OsErrorView, OsPathFragment, System};

verus! {

/// Whether an outcome is a typed `NotFound`.
pub open spec fn is_not_found<T>(r: Result<T, OsErrorView>) -> bool {
    r matches Err(OsErrorView::NotFound { .. })
}

/// Whether a stat outcome is a success of kind `kind`.
pub open spec fn is_kind(r: Result<Metadata, OsErrorView>, kind: FileKind) -> bool {
    r matches Ok(m) && m.kind == kind
}

fn err_is_not_found(e: &OsError) -> (b: bool)
    ensures
        b == (e@ matches OsErrorView::NotFound { .. }),
{
    match e {
        OsError::NotFound { .. } => true,
        _ => false,
    }
}

fn meta_is_kind(r: &Result<Metadata, OsError>, kind: FileKind) -> (b: bool)
    ensures
        b == is_kind(crate::outcome(*r), kind),
{
    match r {
        Ok(m) => m.kind == kind,
        Err(_) => false,
    }
}

/// Reading `p` gives `expect`, and stat-ing it reports a regular file.
pub fn read_roundtrip<S: System>(sys: &S, p: &HostPath, expect: &[u8]) -> (ok: bool)
    ensures
        ok ==> sys.read_outcome(p@, Ok(expect@)) && exists|r: Result<Metadata, OsErrorView>| #[trigger]
            sys.stat_outcome(p@, r) && is_kind(r, FileKind::File),
        !ok ==> (exists|r: Result<Seq<u8>, OsErrorView>| #[trigger] sys.read_outcome(p@, r) && r != Ok::<
            Seq<u8>,
            OsErrorView,
        >(expect@)) || (exists|r: Result<Metadata, OsErrorView>| #[trigger]
            sys.stat_outcome(p@, r) && !is_kind(r, FileKind::File)),
{
    let r = sys.read(p);
    let s = sys.stat(p);
    let read_ok = match &r {
        Ok(b) => bytes_eq(b.as_slice(), expect),
        Err(_) => false,
    };
    let stat_ok = meta_is_kind(&s, FileKind::File);
    proof {
        assert(sys.read_outcome(p@, crate::outcome(r)));
        assert(sys.stat_outcome(p@, crate::outcome(s)));
    }
    read_ok && stat_ok
}

/// Missingness is a typed error (or `Ok(false)` for `path_exists`), NEVER an empty value:
/// `read`, `stat` and `list_dir` of `absent` are `NotFound`, and `path_exists` is `Ok(false)`.
pub fn missing_is_notfound<S: System>(sys: &S, absent: &HostPath) -> (ok: bool)
    ensures
        ok ==> {
            &&& exists|r: Result<Seq<u8>, OsErrorView>| #[trigger] sys.read_outcome(absent@, r) && is_not_found(r)
            &&& exists|r: Result<Metadata, OsErrorView>| #[trigger] sys.stat_outcome(absent@, r) && is_not_found(r)
            &&& exists|r: Result<Seq<Seq<char>>, OsErrorView>| #[trigger] sys.list_dir_outcome(absent@, r) && is_not_found(r)
            &&& sys.path_exists_outcome(absent@, Ok(false))
        },
        !ok ==> {
            ||| exists|r: Result<Seq<u8>, OsErrorView>| #[trigger] sys.read_outcome(absent@, r) && !is_not_found(r)
            ||| exists|r: Result<Metadata, OsErrorView>| #[trigger] sys.stat_outcome(absent@, r) && !is_not_found(r)
            ||| exists|r: Result<Seq<Seq<char>>, OsErrorView>| #[trigger] sys.list_dir_outcome(absent@, r) && !is_not_found(r)
            ||| exists|r: Result<bool, OsErrorView>| #[trigger] sys.path_exists_outcome(absent@, r) && r != Ok::<bool, OsErrorView>(false)
        },
{
    let r = sys.read(absent);
    let s = sys.stat(absent);
    let l = sys.list_dir(absent);
    let e = sys.path_exists(absent);
    let read_ok = match &r {
        Ok(_) => false,
        Err(err) => err_is_not_found(err),
    };
    let stat_ok = match &s {
        Ok(_) => false,
        Err(err) => err_is_not_found(err),
    };
    let list_ok = match &l {
        Ok(_) => false,
        Err(err) => err_is_not_found(err),
    };
    let exists_ok = match &e {
        Ok(b) => !*b,
        Err(_) => false,
    };
    proof {
        assert(sys.read_outcome(absent@, crate::outcome(r)));
        assert(sys.stat_outcome(absent@, crate::outcome(s)));
        assert(sys.list_dir_outcome(absent@, crate::listing_outcome(l)));
        assert(sys.path_exists_outcome(absent@, crate::outcome(e)));
    }
    read_ok && stat_ok && list_ok && exists_ok
}

/// The views of a list of names.
pub open spec fn text_views(s: Seq<&str>) -> Seq<Seq<char>> {
    s.map_values(|t: &str| t@)
}

fn names_match(got: &Vec<OsPathFragment>, expect: &[&str]) -> (b: bool)
    ensures
        b == (crate::fragment_names(got@) == text_views(expect@)),
{
    if got.len() != expect.len() {
        assert(crate::fragment_names(got@).len() != text_views(expect@).len());
        return false;
    }
    let mut i: usize = 0;
    while i < got.len()
        invariant
            got@.len() == expect@.len(),
            i <= got@.len(),
            forall|j: int| 0 <= j < i ==> crate::fragment_names(got@)[j] == text_views(expect@)[j],
        decreases got@.len() - i,
    {
        if !text_eq(got[i].as_str(), expect[i]) {
            assert(crate::fragment_names(got@)[i as int] != text_views(expect@)[i as int]);
            return false;
        }
        i = i + 1;
    }
    assert(crate::fragment_names(got@) =~= text_views(expect@));
    true
}

fn names_sorted(names: &[&str]) -> (b: bool)
    ensures
        b == sorted_by(text_views(names@), byte_order()),
{
    let ghost v = text_views(names@);
    let mut i: usize = 0;
    while i < names.len()
        invariant
            v == text_views(names@),
            i <= names@.len(),
            forall|a: int, c: int| 0 <= a < i && a < c < v.len() ==> text_le(#[trigger] v[a], #[trigger] v[c]),
        decreases names@.len() - i,
    {
        let mut j: usize = i + 1;
        while j < names.len()
            invariant
                v == text_views(names@),
                i < names@.len(),
                i + 1 <= j <= names@.len(),
                forall|a: int, c: int| 0 <= a < i && a < c < v.len() ==> text_le(#[trigger] v[a], #[trigger] v[c]),
                forall|c: int| i < c < j ==> text_le(v[i as int], #[trigger] v[c]),
            decreases names@.len() - j,
        {
            if text_lt_exec(names[j], names[i]) {
                assert(!byte_order()(v[i as int], v[j as int]));
                return false;
            }
            j = j + 1;
        }
        i = i + 1;
    }
    true
}

/// `list_dir` of `dir` is exactly `expect`, which is in raw byte order, and a second call
/// gives the same listing.
pub fn list_dir_is_deterministic<S: System>(sys: &S, dir: &HostPath, expect: &[&str]) -> (ok: bool)
    ensures
        ok ==> sys.list_dir_outcome(dir@, Ok(text_views(expect@))) && sorted_by(
            text_views(expect@),
            byte_order(),
        ),
        !ok ==> (exists|r: Result<Seq<Seq<char>>, OsErrorView>| #[trigger]
            sys.list_dir_outcome(dir@, r) && r != Ok::<Seq<Seq<char>>, OsErrorView>(
                text_views(expect@),
            )) || !sorted_by(text_views(expect@), byte_order()),
{
    let got = sys.list_dir(dir);
    proof {
        assert(sys.list_dir_outcome(dir@, crate::listing_outcome(got)));
    }
    let first_ok = match &got {
        Ok(names) => names_match(names, expect),
        Err(_) => false,
    };
    if !first_ok {
        return false;
    }
    if !names_sorted(expect) {
        return false;
    }
    let again = sys.list_dir(dir);
    proof {
        assert(sys.list_dir_outcome(dir@, crate::listing_outcome(again)));
    }
    match &again {
        Ok(names) => names_match(names, expect),
        Err(_) => false,
    }
}

/// `lstat` reports the link itself; `stat` follows it to `final_kind`; `read_link` returns
/// the RAW target.
pub fn lstat_does_not_follow_final_symlink<S: System>(
    sys: &S,
    link: &HostPath,
    raw_target: &str,
    final_kind: FileKind,
) -> (ok: bool)
    ensures
        ok ==> {
            &&& exists|r: Result<Metadata, OsErrorView>| #[trigger] sys.lstat_outcome(link@, r) && is_kind(r, FileKind::Symlink)
            &&& exists|r: Result<Metadata, OsErrorView>| #[trigger] sys.stat_outcome(link@, r) && is_kind(r, final_kind)
            &&& sys.read_link_outcome(link@, Ok(raw_target@))
        },
        !ok ==> {
            ||| exists|r: Result<Metadata, OsErrorView>| #[trigger] sys.lstat_outcome(link@, r) && !is_kind(r, FileKind::Symlink)
            ||| exists|r: Result<Metadata, OsErrorView>| #[trigger] sys.stat_outcome(link@, r) && !is_kind(r, final_kind)
            ||| exists|r: Result<Seq<char>, OsErrorView>| #[trigger] sys.read_link_outcome(link@, r) && r != Ok::<Seq<char>, OsErrorView>(raw_target@)
        },
{
    let l = sys.lstat(link);
    let s = sys.stat(link);
    let t = sys.read_link(link);
    let lstat_ok = meta_is_kind(&l, FileKind::Symlink);
    let stat_ok = meta_is_kind(&s, final_kind);
    let target_ok = match &t {
        Ok(target) => text_eq(target.0.as_str(), raw_target),
        Err(_) => false,
    };
    proof {
        assert(sys.lstat_outcome(link@, crate::outcome(l)));
        assert(sys.stat_outcome(link@, crate::outcome(s)));
        assert(sys.read_link_outcome(link@, crate::outcome(t)));
    }
    lstat_ok && stat_ok && target_ok
}

/// The dirty-check identity is exposed and a rewrite is visible: both are regular files, the
/// file id is stable across the rewrite, and the mtime advanced or the size changed.
pub fn metadata_dirtycheck_fields_see_rewrite(before: &Metadata, after: &Metadata) -> (ok: bool)
    ensures
        ok == (before.kind == FileKind::File && after.kind == FileKind::File && before.file_id
            == after.file_id && (after.mtime_nanos > before.mtime_nanos || after.len != before.len)),
{
    before.kind == FileKind::File && after.kind == FileKind::File && before.file_id
        == after.file_id && (after.mtime_nanos > before.mtime_nanos || after.len != before.len)
}

} // verus!
