//! Concrete scenarios for env leaves, snapshots, node keys, and the ordered name maps.

use razel_os_api::conformance::FakeSystem;
use razel_os_api::env::mock::{DeclaredClientEnv, RecordedEnvDeps};
use razel_os_api::env::{ClientEnv, ClientEnvSnapshot, EnvDepSink, EnvValue, EnvVarKey, NameSet, ENV_VAR};
use razel_os_api::graph::{Digest, Error, NodeKey};
use razel_os_api::text_map::TextMap;
use razel_os_api::{EnvMap, EnvName, OsValue};

fn n(s: &str) -> EnvName {
    EnvName(s.to_string())
}

fn set(v: &str) -> EnvValue {
    EnvValue::SetTo(OsValue(v.to_string()))
}

#[test]
fn canonical_bytes_are_tag_then_payload() {
    assert_eq!(EnvValue::Unset.canonical_bytes(), vec![0u8]);
    assert_eq!(set("").canonical_bytes(), vec![1u8]);
    assert_eq!(set("ab").canonical_bytes(), vec![1u8, b'a', b'b']);
    assert_eq!(set("\u{e9}").canonical_bytes(), vec![1u8, 0xC3, 0xA9]);
}

#[test]
fn digests_follow_values() {
    assert_eq!(set("x").content_digest(), set("x").content_digest());
    assert_ne!(set("x").content_digest(), set("y").content_digest());
    assert_eq!(set("ab").content_digest(), Digest::of(&[1u8, b'a', b'b']));
    assert_ne!(set("").content_digest(), EnvValue::Unset.content_digest());
}

#[test]
fn value_eq_tells_unset_from_empty() {
    assert!(EnvValue::Unset.value_eq(&EnvValue::Unset));
    assert!(!EnvValue::Unset.value_eq(&set("")));
    assert!(!set("a").value_eq(&set("b")));
    assert!(set("a").value_eq(&set("a")));
}

#[test]
fn env_values_are_comparable_shareable_serializable() {
    let policy = set("v").policy();
    assert!(policy.comparable);
    assert!(!policy.always_dirty);
    assert!(policy.shareable);
    assert!(policy.serializable);
    assert!(!policy.process_local);
}

#[test]
fn node_key_is_kind_and_name_bytes() {
    let key = EnvVarKey { name: n("CC") };
    assert_eq!(key.kind(), ENV_VAR);
    assert_eq!(key.encode(), b"CC".to_vec());
    let nk = key.node_key();
    assert_eq!(nk.kind(), ENV_VAR);
    assert_eq!(nk.encoded(), b"CC");
    assert_eq!(nk, NodeKey::new(ENV_VAR, b"CC".to_vec()));
    assert_ne!(nk, EnvVarKey { name: n("cc") }.node_key(), "names are byte-exact, no case fold");
}

#[test]
fn recorded_deps_keep_read_order() {
    let mut deps = RecordedEnvDeps::new();
    deps.record_env_dep(&EnvVarKey { name: n("B") });
    deps.record_env_dep(&EnvVarKey { name: n("A") });
    assert_eq!(deps.0, vec![EnvVarKey { name: n("B") }.node_key(), EnvVarKey { name: n("A") }.node_key()]);
}

#[test]
fn declared_client_env_exposes_its_names_and_snapshot() {
    let sys = FakeSystem::new().with_env("B", "2").with_env("X", "9");
    let mut names = NameSet::new();
    names.insert(n("B"));
    names.insert(n("A"));
    names.insert(n("B"));
    assert_eq!(names.len(), 2, "inserting a name twice keeps one");
    let env = DeclaredClientEnv::from_system(&sys, &names);
    assert_eq!(env.declared(), &names);
    assert_eq!(*env.snapshot().declared.get(&n("A")).unwrap(), EnvValue::Unset);
    assert_eq!(*env.snapshot().declared.get(&n("B")).unwrap(), set("2"));
    assert!(env.snapshot().declared.get(&n("X")).is_none(), "undeclared host vars are not captured");
}

#[test]
fn undeclared_read_error_names_the_variable() {
    let env = DeclaredClientEnv::new(ClientEnvSnapshot::capture(&FakeSystem::new(), &NameSet::new()));
    let mut deps = RecordedEnvDeps::new();
    match env.get(&mut deps, &n("HOME")) {
        Err(Error::Invalid { what, detail }) => {
            assert_eq!(what, "undeclared env read (REQ-PATHENV-002)");
            assert_eq!(detail, "HOME");
        }
        other => panic!("expected Invalid, got {other:?}"),
    }
}

#[test]
fn spawn_env_keeps_only_set_vars_in_byte_order() {
    let sys = FakeSystem::new().with_env("b", "1").with_env("A", "2").with_env("C", "");
    let mut names = NameSet::new();
    for s in ["b", "A", "C", "UNSET"] {
        names.insert(n(s));
    }
    let env = ClientEnvSnapshot::capture(&sys, &names).to_spawn_env();
    assert_eq!(env.len(), 3);
    assert_eq!(env.keys(), vec![n("A"), n("C"), n("b")]);
    assert_eq!(*env.get(&n("C")).unwrap(), OsValue(String::new()), "set-to-empty stays set");
    assert!(!env.contains_key(&n("UNSET")));
}

#[test]
fn text_map_insert_replaces_and_orders_by_bytes() {
    let mut m: EnvMap = TextMap::new();
    assert!(m.is_empty());
    m.insert(n("b"), OsValue("1".into()));
    m.insert(n("B"), OsValue("2".into()));
    m.insert(n("b"), OsValue("3".into()));
    assert_eq!(m.len(), 2);
    assert_eq!(m.keys(), vec![n("B"), n("b")]);
    assert_eq!(*m.get(&n("b")).unwrap(), OsValue("3".into()));
    assert_eq!(*m.key_at(0), n("B"));
    assert_eq!(*m.value_at(1), OsValue("3".into()));
    assert_eq!(m.get_text("B"), Some(&OsValue("2".into())));
    assert!(m.get(&n("c")).is_none());
    let copy = m.clone();
    assert_eq!(copy, m);
}

#[test]
fn name_set_orders_by_bytes() {
    let mut s = NameSet::new();
    assert!(s.is_empty());
    s.insert(n("z"));
    s.insert(n("Z"));
    assert!(s.contains(&n("z")));
    assert!(!s.contains(&n("y")));
    assert_eq!(*s.key_at(0), n("Z"));
    assert_eq!(*s.key_at(1), n("z"));
}

#[test]
fn get_into_reads_declared_and_records_once() {
    let sys = FakeSystem::new().with_env("CC", "clang");
    let mut names = NameSet::new();
    names.insert(n("CC"));
    let env = DeclaredClientEnv::from_system(&sys, &names);
    let mut deps = RecordedEnvDeps::new();
    assert_eq!(env.get_into(&mut deps, &n("CC")).unwrap(), set("clang"));
    assert_eq!(deps.0, vec![EnvVarKey { name: n("CC") }.node_key()]);
    assert!(matches!(env.get_into(&mut deps, &n("HOME")), Err(Error::Invalid { .. })));
    assert_eq!(deps.0.len(), 1, "an undeclared read records nothing");
}

#[test]
fn captures_through_one_seam_agree() {
    let sys = FakeSystem::new().with_env("A", "1").with_env("Z", "9");
    let mut names = NameSet::new();
    names.insert(n("A"));
    names.insert(n("B"));
    let first = ClientEnvSnapshot::capture(&sys, &names);
    assert_eq!(first, ClientEnvSnapshot::capture(&sys, &names));
    assert_eq!(*DeclaredClientEnv::from_system(&sys, &names).snapshot(), first);
}
