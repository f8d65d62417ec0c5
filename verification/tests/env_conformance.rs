//! Environment as a graph input: declared reads are recorded dependencies, undeclared reads
//! fail closed, `Unset` is explicit, and the spawn env comes from the declared snapshot only.

use razel_os_api::conformance::FakeSystem;
use razel_os_api::env::mock::{DeclaredClientEnv, RecordedEnvDeps};
use razel_os_api::env::{ClientEnv, ClientEnvSnapshot, EnvValue, EnvVarKey, EnvVarNode, NameSet, ENV_VAR};
use razel_os_api::graph::Error;
use razel_os_api::{EnvName, OsValue};

fn n(s: &str) -> EnvName {
    EnvName(s.to_string())
}
fn declared(names: &[&str]) -> NameSet {
    let mut set = NameSet::new();
    for s in names {
        set.insert(n(s));
    }
    set
}

/// Every `ClientEnv::get` of a declared var records a dependency on that var's `EnvVarKey`
/// node key: one record per read, the exact key, nothing else.
#[test]
fn env_read_records_envvar_node() {
    let sys = FakeSystem::new().with_env("CC", "clang");
    let env = DeclaredClientEnv::from_system(&sys, &declared(&["CC", "OPT"]));
    let mut deps = RecordedEnvDeps::new();
    assert_eq!(env.get(&mut deps, &n("CC")).expect("declared read"), EnvValue::SetTo(OsValue("clang".into())));
    assert_eq!(env.get(&mut deps, &n("OPT")).expect("declared read"), EnvValue::Unset);
    assert_eq!(env.get(&mut deps, &n("CC")).expect("declared read"), EnvValue::SetTo(OsValue("clang".into())));
    let cc = EnvVarKey { name: n("CC") }.node_key();
    let opt = EnvVarKey { name: n("OPT") }.node_key();
    assert_eq!(deps.0, vec![cc.clone(), opt, cc], "each read records exactly its var's node key, in order");
    assert_eq!(deps.0[0].kind(), ENV_VAR, "the recorded key is the ENV_VAR leaf kind");
}

/// The snapshot is a pure function of the `System` seam + the declared set: two Systems with
/// different host env yield different snapshots, and the ambient test-runner env never leaks in.
#[test]
fn snapshot_reads_host_only_via_system_seam() {
    let host_a = FakeSystem::new().with_env("CC", "clang");
    let host_b = FakeSystem::new().with_env("CC", "gcc");
    let names = declared(&["CC", "PATH"]);
    let snap_a = ClientEnvSnapshot::capture(&host_a, &names);
    let snap_b = ClientEnvSnapshot::capture(&host_b, &names);
    assert_ne!(snap_a, snap_b, "the snapshot must reflect ITS System, not shared ambient state");
    assert_eq!(*snap_a.declared.get(&n("CC")).unwrap(), EnvValue::SetTo(OsValue("clang".into())));
    assert_eq!(*snap_b.declared.get(&n("CC")).unwrap(), EnvValue::SetTo(OsValue("gcc".into())));
    // PATH is set in the ambient test-runner env, but neither Fake declares-and-hosts it via the seam:
    assert_eq!(*snap_a.declared.get(&n("PATH")).unwrap(), EnvValue::Unset,
        "the ambient process env has no channel into the snapshot — only System::raw_env does");
}

/// Reading an UNDECLARED var is a loud typed `Error` — not `Unset`, not `""`, not any default.
/// A failed read also records NO dependency.
#[test]
fn undeclared_env_read_fails_closed() {
    let sys = FakeSystem::new().with_env("HOME", "/host/home"); // present on the host…
    let env = DeclaredClientEnv::from_system(&sys, &declared(&["CC"])); // …but NOT declared
    let mut deps = RecordedEnvDeps::new();
    let got = env.get(&mut deps, &n("HOME"));
    assert!(matches!(got, Err(Error::Invalid { .. })),
        "an undeclared env read MUST be a typed error, never a value: got {got:?}");
    assert!(deps.0.is_empty(), "a refused read records no dependency");
    assert!(!env.declared().contains(&n("HOME")));
}

/// Declared-but-absent is the EXPLICIT `Unset` — distinct from `SetTo("")` and from undeclared
/// (an error). All three are told apart, including by content digest.
#[test]
fn unset_declared_is_explicit_not_empty() {
    let sys = FakeSystem::new().with_env("EMPTY", "");
    let env = DeclaredClientEnv::from_system(&sys, &declared(&["EMPTY", "ABSENT"]));
    let mut deps = RecordedEnvDeps::new();
    let empty = env.get(&mut deps, &n("EMPTY")).expect("declared read");
    let absent = env.get(&mut deps, &n("ABSENT")).expect("declared read");
    assert_eq!(empty, EnvValue::SetTo(OsValue(String::new())));
    assert_eq!(absent, EnvValue::Unset);
    assert_ne!(empty, absent, "Unset and SetTo(\"\") are DIFFERENT values");
    assert_ne!(empty.content_digest(), absent.content_digest(),
        "…and different content digests (the engine's change detection sees the difference)");
    assert!(env.get(&mut deps, &n("UNDECLARED")).is_err(), "undeclared stays an error, not a third value");
}

/// Distinct names are distinct node keys, a reader's recorded deps are EXACTLY the names it
/// read, and an undeclared var has NO key channel at all. Same value ⇒ equal digest,
/// changed value ⇒ different digest.
#[test]
fn only_declared_env_change_invalidates() {
    let key_a = EnvVarKey { name: n("A") };
    let key_b = EnvVarKey { name: n("B") };
    assert_ne!(key_a.node_key(), key_b.node_key(), "one leaf per name — B's change cannot alias into A");
    assert_eq!(key_a.node_key(), EnvVarKey { name: n("A") }.node_key(), "the key encoding is canonical");

    let sys = FakeSystem::new().with_env("A", "1").with_env("B", "2");
    let env = DeclaredClientEnv::from_system(&sys, &declared(&["A", "B"]));
    let mut deps = RecordedEnvDeps::new();
    env.get(&mut deps, &n("A")).expect("read A");
    assert_eq!(deps.0, vec![key_a.node_key()],
        "a reader of only A depends on exactly A — nothing else can invalidate it");

    // an undeclared read fails BEFORE any dependency exists → an undeclared change invalidates nothing.
    let mut deps2 = RecordedEnvDeps::new();
    assert!(env.get(&mut deps2, &n("UNDECLARED")).is_err());
    assert!(deps2.0.is_empty());

    // value-level change detection: unchanged ⇒ equal (cutoff); changed ⇒ different (invalidate).
    let same = EnvValue::SetTo(OsValue("1".into()));
    assert!(same.value_eq(&EnvValue::SetTo(OsValue("1".into()))));
    assert_ne!(same.content_digest(), EnvValue::SetTo(OsValue("9".into())).content_digest());
}

/// The spawn env is projected from the DECLARED snapshot only — an undeclared host `PATH`
/// never appears; a declared `PATH` carries the seam-captured value.
#[test]
fn path_comes_from_declared_env_not_host() {
    let host = FakeSystem::new().with_env("PATH", "/host/bin").with_env("CC", "clang");
    // PATH not declared ⇒ it does NOT exist in the spawn env, whatever the host says:
    let undeclared_path = ClientEnvSnapshot::capture(&host, &declared(&["CC"]));
    let spawn_env = undeclared_path.to_spawn_env();
    assert!(!spawn_env.contains_key(&n("PATH")), "host PATH must not leak into a spawn env");
    assert_eq!(*spawn_env.get(&n("CC")).unwrap(), OsValue("clang".into()));
    // PATH declared ⇒ the value is the SEAM-captured one, entering by declaration:
    let declared_path = ClientEnvSnapshot::capture(&host, &declared(&["PATH"]));
    assert_eq!(*declared_path.to_spawn_env().get(&n("PATH")).unwrap(), OsValue("/host/bin".into()),
        "a DECLARED PATH rides the declared channel — visible, recorded, invalidating");
    // …and a declared-but-unset var is absent from the spawn env (exact env, no empty-string default):
    let unset = ClientEnvSnapshot::capture(&host, &declared(&["NOPE"]));
    assert!(unset.to_spawn_env().is_empty());
}

/// This contract performs NO path normalization — `OsValue` bytes pass through verbatim
/// (aliased spellings, separators, dot-segments are DATA here).
#[test]
fn env_contract_uses_path_types_policy() {
    for raw in ["/var/db/x", "/private/var/db/x", "C:\\Foo\\..\\Bar", "../rel/./path"] {
        let sys = FakeSystem::new().with_env("P", raw);
        let env = DeclaredClientEnv::from_system(&sys, &declared(&["P"]));
        let mut deps = RecordedEnvDeps::new();
        assert_eq!(env.get(&mut deps, &n("P")).expect("declared read"), EnvValue::SetTo(OsValue(raw.into())),
            "env values are OPAQUE bytes — no second normalization policy may rewrite them");
    }
}

/// `EnvVarNode::compute`: a declared key yields the snapshot value; an undeclared key fails
/// closed.
#[test]
fn envvar_node_compute_matches_snapshot_and_fails_closed() {
    let sys = FakeSystem::new().with_env("CC", "clang");
    let node = EnvVarNode::new(ClientEnvSnapshot::capture(&sys, &declared(&["CC", "OPT"])));
    assert_eq!(node.compute(&EnvVarKey { name: n("CC") }).expect("declared"), EnvValue::SetTo(OsValue("clang".into())));
    assert_eq!(node.compute(&EnvVarKey { name: n("OPT") }).expect("declared"), EnvValue::Unset);
    assert!(matches!(node.compute(&EnvVarKey { name: n("HOME") }), Err(Error::Invalid { .. })),
        "an undeclared EnvVarNode demand is a typed error, never a default value");
}
