//! Environment as a graph input. `ClientEnvSnapshot` + `EnvVarKey`/`EnvValue` make declared
//! environment variables explicit graph leaves: only DECLARED env reads are allowed
//! (undeclared is a loud typed error), an unset declared var is the explicit
//! `EnvValue::Unset`, and every build-path read is RECORDED as a dependency on the var's node
//! key. Ambient host env is visible ONLY through `System::raw_env` while constructing the
//! snapshot. Values pass through verbatim: no path normalization happens here.

use vstd::prelude::*;
use vstd::string::*;

use crate::graph::{Digest, Error, KindId, NodeKey, NodeKeyView, ValuePolicy};
use crate::text::utf8;
use crate::text_map::{TextMap, TextSet};
use crate::{EnvMap, EnvName, OsValue, System};

pub mod mock;

verus! {

/// The env-leaf node kind.
pub const ENV_VAR: KindId = 14;

/// A set of declared variable names, ordered by their bytes.
pub type NameSet = TextSet<EnvName>;

/// The node key of the leaf for the variable named `name`.
pub open spec fn env_node_key(name: Seq<char>) -> NodeKeyView {
    NodeKeyView { kind: ENV_VAR, encoded: utf8(name) }
}

/// Typed key of one declared environment variable's leaf node.
#[derive(PartialEq, Eq, Hash, PartialOrd, Ord, Debug)]
pub struct EnvVarKey {
    pub name: EnvName,
}

impl View for EnvVarKey {
    type V = Seq<char>;

    open spec fn view(&self) -> Seq<char> {
        self.name@
    }
}

impl Clone for EnvVarKey {
    fn clone(&self) -> (r: Self)
        ensures
            r@ == self@,
    {
        EnvVarKey { name: self.name.clone() }
    }
}

impl EnvVarKey {
    /// The node kind of every env leaf.
    pub fn kind(&self) -> (k: KindId)
        ensures
            k == ENV_VAR,
    {
        ENV_VAR
    }

    /// Canonical encoding: the raw env-name bytes (compared byte-exact; no case-fold, no trim).
    pub fn encode(&self) -> (b: Vec<u8>)
        ensures
            b@ == utf8(self@),
    {
        self.name.0.as_str().as_bytes_vec()
    }

    /// The node key of this variable's leaf.
    pub fn node_key(&self) -> (k: NodeKey)
        ensures
            k@ == env_node_key(self@),
    {
        NodeKey::new(self.kind(), self.encode())
    }
}

/// The leaf value: a declared var is either SET to a value or explicitly UNSET. `Unset` is
/// distinct from `Set(OsValue(""))` and from undeclared (which is an `Error`, not a value).
#[derive(PartialEq, Eq, Debug)]
pub enum EnvValue {
    SetTo(OsValue),
    Unset,
}

impl View for EnvValue {
    type V = Option<Seq<char>>;

    open spec fn view(&self) -> Option<Seq<char>> {
        match self {
            EnvValue::SetTo(v) => Some(v@),
            EnvValue::Unset => None,
        }
    }
}

impl Clone for EnvValue {
    fn clone(&self) -> (r: Self)
        ensures
            r@ == self@,
    {
        match self {
            EnvValue::SetTo(v) => EnvValue::SetTo(v.clone()),
            EnvValue::Unset => EnvValue::Unset,
        }
    }
}

/// The canonical bytes of a leaf value: a tag byte, then the value's bytes when set.
pub open spec fn canonical(v: Option<Seq<char>>) -> Seq<u8> {
    match v {
        None => seq![0u8],
        Some(s) => seq![1u8] + utf8(s),
    }
}

impl EnvValue {
    /// Canonical bytes (tag + payload): deterministic, so the content digest is stable.
    pub fn canonical_bytes(&self) -> (b: Vec<u8>)
        ensures
            b@ == canonical(self@),
    {
        match self {
            EnvValue::Unset => {
                let mut b: Vec<u8> = Vec::new();
                b.push(0u8);
                assert(b@ =~= seq![0u8]);
                b
            },
            EnvValue::SetTo(v) => {
                let payload = v.0.as_str().as_bytes();
                let mut b: Vec<u8> = Vec::with_capacity(1);
                b.push(1u8);
                let mut i: usize = 0;
                while i < payload.len()
                    invariant
                        payload@ == utf8(v@),
                        i <= payload@.len(),
                        b@ =~= seq![1u8] + payload@.take(i as int),
                    decreases payload@.len() - i,
                {
                    b.push(payload[i]);
                    i = i + 1;
                }
                assert(payload@.take(i as int) =~= payload@);
                b
            },
        }
    }

    /// How the engine may treat an env value: comparable, shareable and serializable.
    pub fn policy(&self) -> (p: ValuePolicy)
        ensures
            p == (ValuePolicy {
                comparable: true,
                always_dirty: false,
                shareable: true,
                serializable: true,
                process_local: false,
            }),
    {
        ValuePolicy {
            comparable: true,
            always_dirty: false,
            shareable: true,
            serializable: true,
            process_local: false,
        }
    }

    /// Whether `other` is the same value.
    pub fn value_eq(&self, other: &EnvValue) -> (r: bool)
        ensures
            r == (self@ == other@),
    {
        match (self, other) {
            (EnvValue::SetTo(a), EnvValue::SetTo(b)) => crate::text::text_eq(a.0.as_str(), b.0.as_str()),
            (EnvValue::Unset, EnvValue::Unset) => true,
            _ => false,
        }
    }

    /// The content digest: the digest of the canonical bytes.
    pub fn content_digest(&self) -> (d: Digest)
        ensures
            d@ == canonical(self@),
    {
        let b = self.canonical_bytes();
        Digest::of(b.as_slice())
    }
}

/// Two leaf values have the same canonical bytes (and so the same content digest) exactly
/// when they are the same value: `Unset`, `Set("")` and every other `Set` stay apart.
pub proof fn law_canonical_bytes_injective(a: Option<Seq<char>>, b: Option<Seq<char>>)
    ensures
        canonical(a) == canonical(b) <==> a == b,
{
    if canonical(a) == canonical(b) {
        assert(canonical(a)[0] == canonical(b)[0]);
        if a is Some && b is Some {
            assert(utf8(a->0) =~= canonical(a).drop_first());
            assert(utf8(b->0) =~= canonical(b).drop_first());
            crate::text::lemma_utf8_injective(a->0, b->0);
        }
    }
}

/// Distinct variable names have distinct node keys; equal names have equal node keys.
pub proof fn law_env_node_key_injective(a: Seq<char>, b: Seq<char>)
    ensures
        env_node_key(a) == env_node_key(b) <==> a == b,
{
    if env_node_key(a) == env_node_key(b) {
        crate::text::lemma_utf8_injective(a, b);
    }
}

/// The declared env snapshot: the ONE place ambient host env is observed, and only via
/// `System::raw_env`. Everything on the build path reads THIS.
#[derive(Clone, PartialEq, Eq, Debug)]
pub struct ClientEnvSnapshot {
    pub declared: TextMap<EnvName, EnvValue>,
}

/// The view of a declared map: each declared name to its value (`None` when unset).
pub open spec fn declared_view(m: Map<Seq<char>, EnvValue>) -> Map<Seq<char>, Option<Seq<char>>> {
    m.map_values(|v: EnvValue| v@)
}

/// `snap` is what capturing the names `declared` through `sys` can give: exactly the declared
/// names, each with a value the system may report for it (`None` when unset).
pub open spec fn captured<S: System + ?Sized>(
    sys: &S,
    declared: Set<Seq<char>>,
    snap: Map<Seq<char>, Option<Seq<char>>>,
) -> bool {
    &&& snap.dom() == declared
    &&& forall|n: Seq<char>| #[trigger] declared.contains(n) ==> sys.raw_env_outcome(n, snap[n])
}

/// The exact spawn environment of a declared view: only the declared-and-set variables.
pub open spec fn spawn_view(d: Map<Seq<char>, Option<Seq<char>>>) -> Map<Seq<char>, Seq<char>> {
    Map::new(|k: Seq<char>| d.contains_key(k) && d[k] is Some, |k: Seq<char>| d[k]->0)
}

impl View for ClientEnvSnapshot {
    type V = Map<Seq<char>, Option<Seq<char>>>;

    open spec fn view(&self) -> Map<Seq<char>, Option<Seq<char>>> {
        declared_view(self.declared.view())
    }
}

impl ClientEnvSnapshot {
    /// Capture the declared names from the host through the `System` seam. A var the host
    /// lacks is the EXPLICIT `Unset`: never silently dropped, never defaulted to `""`.
    pub fn capture<S: System + ?Sized>(sys: &S, declared: &NameSet) -> (snap: ClientEnvSnapshot)
        ensures
            captured(sys, declared@, snap@),
    {
        proof {
            declared.lemma_view_facts();
        }
        let mut map: TextMap<EnvName, EnvValue> = TextMap::new();
        let mut i: usize = 0;
        while i < declared.len()
            invariant
                i <= declared.key_seq().len(),
                declared.key_seq().len() == declared@.len(),
                forall|k: Seq<char>| #[trigger] declared@.contains(k) <==> declared.key_seq().contains(k),
                map.view().dom() =~= declared.key_seq().take(i as int).to_set(),
                forall|n: Seq<char>| #[trigger] map.view().contains_key(n) ==> sys.raw_env_outcome(n, map.view()[n]@),
            decreases declared.key_seq().len() - i,
        {
            let name = declared.key_at(i);
            let v = match sys.raw_env(name) {
                Some(v) => EnvValue::SetTo(v),
                None => EnvValue::Unset,
            };
            map.insert(name.clone(), v);
            proof {
                assert(declared.key_seq().take(i + 1) =~= declared.key_seq().take(i as int).push(
                    declared.key_seq()[i as int],
                ));
                declared.key_seq().take(i as int).lemma_push_to_set_commute(declared.key_seq()[i as int]);
                assert(map.view().dom() =~= declared.key_seq().take(i + 1).to_set());
            }
            i = i + 1;
        }
        proof {
            assert(declared.key_seq().take(i as int) =~= declared.key_seq());
            assert(map.view().dom() =~= declared@);
        }
        let snap = ClientEnvSnapshot { declared: map };
        assert(snap@.dom() =~= declared@);
        snap
    }

    /// Project the snapshot into an EXACT spawn env: only declared-and-SET vars appear; `PATH`
    /// comes from here or not at all.
    pub fn to_spawn_env(&self) -> (env: EnvMap)
        ensures
            crate::env_map_view(env.view()) == spawn_view(self@),
    {
        let mut env: EnvMap = TextMap::new();
        let mut i: usize = 0;
        proof {
            self.declared.lemma_view_facts();
        }
        let ghost ks = self.declared.key_seq();
        while i < self.declared.len()
            invariant
                ks == self.declared.key_seq(),
                i <= ks.len(),
                forall|k: Seq<char>| #[trigger] self.declared.view().contains_key(k) <==> ks.contains(k),
                crate::env_map_view(env.view()) =~= spawn_view(
                    declared_view(self.declared.view()).restrict(ks.take(i as int).to_set()),
                ),
            decreases ks.len() - i,
        {
            let name = self.declared.key_at(i);
            let value = self.declared.value_at(i);
            let ghost e0 = env.view();
            match value {
                EnvValue::SetTo(v) => {
                    env.insert(name.clone(), v.clone());
                },
                EnvValue::Unset => {},
            }
            proof {
                assert(ks.take(i + 1) =~= ks.take(i as int).push(ks[i as int]));
                ks.take(i as int).lemma_push_to_set_commute(ks[i as int]);
                let d = declared_view(self.declared.view());
                let k = ks[i as int];
                let s0 = ks.take(i as int).to_set();
                let lhs = crate::env_map_view(env.view());
                let rhs = spawn_view(d.restrict(s0.insert(k)));
                assert(d[k] == value@);
                assert forall|x: Seq<char>| #[trigger] lhs.contains_key(x) <==> rhs.contains_key(x) by {
                    if x != k {
                        assert(lhs.contains_key(x) == crate::env_map_view(e0).contains_key(x));
                    }
                }
                assert forall|x: Seq<char>| #[trigger] lhs.contains_key(x) implies lhs[x] == rhs[x] by {
                    if x != k {
                        assert(lhs[x] == crate::env_map_view(e0)[x]);
                    }
                }
                assert(lhs =~= rhs);
            }
            i = i + 1;
        }
        proof {
            assert(ks.take(i as int) =~= ks);
            assert(declared_view(self.declared.view()).restrict(ks.to_set()) =~= declared_view(
                self.declared.view(),
            ));
        }
        env
    }
}

/// The host environment a fake exposes, restricted to the declared names.
pub open spec fn host_lookup(host: Map<Seq<char>, Seq<char>>, declared: Set<Seq<char>>) -> Map<
    Seq<char>,
    Option<Seq<char>>,
> {
    Map::new(
        |n: Seq<char>| declared.contains(n),
        |n: Seq<char>| if host.contains_key(n) {
            Some(host[n])
        } else {
            None
        },
    )
}

/// The snapshot is a pure function of the seam and the declared names: capturing through a
/// fake gives each declared name the fake's value for it, and `Unset` where it has none.
pub proof fn law_capture_reads_only_the_seam(
    fs: crate::conformance::FakeSystem,
    declared: Set<Seq<char>>,
    snap: Map<Seq<char>, Option<Seq<char>>>,
)
    requires
        captured(&fs, declared, snap),
    ensures
        snap == host_lookup(fs.env(), declared),
{
    assert(snap =~= host_lookup(fs.env(), declared));
}

/// The spawn environment comes from the declaration, never the host: projecting a snapshot
/// captured through a fake gives exactly the declared names that the fake sets, with its
/// values; an undeclared host variable (`PATH` included) never appears.
pub proof fn law_spawn_env_is_declared_and_set(
    fs: crate::conformance::FakeSystem,
    declared: Set<Seq<char>>,
    snap: Map<Seq<char>, Option<Seq<char>>>,
)
    requires
        captured(&fs, declared, snap),
    ensures
        spawn_view(snap) == fs.env().restrict(declared),
{
    law_capture_reads_only_the_seam(fs, declared, snap);
    assert(spawn_view(snap) =~= fs.env().restrict(declared));
}

/// On any system, the spawn environment of a captured snapshot holds only declared names,
/// each with a value the system reports as set for it; a declared name missing from it is
/// one the system may report as unset.
pub proof fn law_spawn_env_follows_the_seam<S: System + ?Sized>(
    sys: &S,
    declared: Set<Seq<char>>,
    snap: Map<Seq<char>, Option<Seq<char>>>,
)
    requires
        captured(sys, declared, snap),
    ensures
        forall|n: Seq<char>| #[trigger] spawn_view(snap).contains_key(n) ==> declared.contains(n)
            && sys.raw_env_outcome(n, Some(spawn_view(snap)[n])),
        forall|n: Seq<char>|
            declared.contains(n) && !#[trigger] spawn_view(snap).contains_key(n) ==> sys.raw_env_outcome(n, None),
{
}

/// Capturing is determined by the seam: on a system that reports one value per name, two
/// captures of the same declared names give the same snapshot (so `from_system` holds what
/// `capture` gives).
pub proof fn law_capture_is_determined<S: System + ?Sized>(
    sys: &S,
    declared: Set<Seq<char>>,
    a: Map<Seq<char>, Option<Seq<char>>>,
    b: Map<Seq<char>, Option<Seq<char>>>,
)
    requires
        forall|n: Seq<char>, x: Option<Seq<char>>, y: Option<Seq<char>>|
            #![trigger sys.raw_env_outcome(n, x), sys.raw_env_outcome(n, y)]
            sys.raw_env_outcome(n, x) && sys.raw_env_outcome(n, y) ==> x == y,
        captured(sys, declared, a),
        captured(sys, declared, b),
    ensures
        a == b,
{
    assert forall|n: Seq<char>| #[trigger] a.contains_key(n) implies a[n] == b[n] by {
        assert(sys.raw_env_outcome(n, a[n]) && sys.raw_env_outcome(n, b[n]));
    }
    assert(a =~= b);
}

/// The dependency-recording capability a `ClientEnv::get` needs: the narrow slice of the
/// engine's demand context visible at this layer.
pub trait EnvDepSink {
    /// The node keys recorded so far, in recording order.
    spec fn recorded(&self) -> Seq<NodeKeyView>;

    fn record_env_dep(&mut self, key: &EnvVarKey)
        ensures
            final(self).recorded() == old(self).recorded().push(env_node_key(key@)),
    ;
}

/// Read a declared env var as a RECORDED dependency. Reading an undeclared name is a loud
/// typed `Error`: never empty, never `Unset`, never a default.
pub trait ClientEnv {
    /// The declared names and their values (`None` when unset).
    spec fn declared_env(&self) -> Map<Seq<char>, Option<Seq<char>>>;

    fn get(&self, deps: &mut dyn EnvDepSink, name: &EnvName) -> (r: Result<EnvValue, Error>)
        ensures
            self.declared_env().contains_key(name@) ==> {
                &&& r is Ok
                &&& r->Ok_0@ == self.declared_env()[name@]
                &&& final(deps).recorded() == old(deps).recorded().push(env_node_key(name@))
            },
            !self.declared_env().contains_key(name@) ==> {
                &&& r is Err
                &&& final(deps).recorded() == old(deps).recorded()
            },
    ;

    fn declared(&self) -> (r: &NameSet)
        ensures
            r@ == self.declared_env().dom(),
    ;
}

/// The env leaf's pure node body: yields the snapshot's value for a DECLARED name and fails
/// closed on an undeclared one.
pub struct EnvVarNode {
    snapshot: ClientEnvSnapshot,
}

impl View for EnvVarNode {
    type V = Map<Seq<char>, Option<Seq<char>>>;

    closed spec fn view(&self) -> Map<Seq<char>, Option<Seq<char>>> {
        self.snapshot@
    }
}

impl EnvVarNode {
    pub fn new(snapshot: ClientEnvSnapshot) -> (n: Self)
        ensures
            n@ == snapshot@,
    {
        Self { snapshot }
    }

    pub fn compute(&self, key: &EnvVarKey) -> (r: Result<EnvValue, Error>)
        ensures
            self@.contains_key(key@) ==> r is Ok && r->Ok_0@ == self@[key@],
            !self@.contains_key(key@) ==> r is Err && r->Err_0@ == (crate::graph::ErrorView::Invalid {
                what: "undeclared EnvVarNode demand (REQ-PATHENV-002)"@,
                detail: key@,
            }),
    {
        match self.snapshot.declared.get(&key.name) {
            Some(v) => Ok(v.clone()),
            None => Err(
                Error::Invalid {
                    what: "undeclared EnvVarNode demand (REQ-PATHENV-002)".to_owned(),
                    detail: key.name.0.clone(),
                },
            ),
        }
    }
}

} // verus!
