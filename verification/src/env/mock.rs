//! Reference `ClientEnv` (a declared snapshot, fail-closed reads, recorded dependencies) and
//! a recording `EnvDepSink`.

use vstd::prelude::*;
use vstd::string::*;

use super::{env_node_key, ClientEnv, ClientEnvSnapshot, EnvDepSink, EnvValue, EnvVarKey, NameSet};
use crate::graph::{Error, ErrorView, NodeKey, NodeKeyView};
use crate::text_map::TextSet;
use crate::{EnvName, System};

verus! {

/// Test-side `EnvDepSink`: records each read's node key, in read order.
#[derive(Debug)]
pub struct RecordedEnvDeps(pub Vec<NodeKey>);

impl RecordedEnvDeps {
    pub fn new() -> (r: Self)
        ensures
            r.0@.len() == 0,
    {
        RecordedEnvDeps(Vec::new())
    }
}

/// The views of a sequence of node keys.
pub open spec fn key_views(s: Seq<NodeKey>) -> Seq<NodeKeyView> {
    s.map_values(|k: NodeKey| k@)
}

impl EnvDepSink for RecordedEnvDeps {
    open spec fn recorded(&self) -> Seq<NodeKeyView> {
        key_views(self.0@)
    }

    fn record_env_dep(&mut self, key: &EnvVarKey) {
        let k = key.node_key();
        let ghost s0 = self.0@;
        self.0.push(k);
        assert(key_views(self.0@) =~= key_views(s0).push(env_node_key(key@)));
    }
}

/// The error a read of the undeclared name `name` gives.
pub open spec fn undeclared_read(name: Seq<char>) -> ErrorView {
    ErrorView::Invalid { what: "undeclared env read (REQ-PATHENV-002)"@, detail: name }
}

/// The reference `ClientEnv`: a declared snapshot, fail-closed reads, recorded dependencies.
pub struct DeclaredClientEnv {
    snapshot: ClientEnvSnapshot,
    declared_names: NameSet,
}

impl DeclaredClientEnv {
    #[verifier::type_invariant]
    closed spec fn names_match(self) -> bool {
        self.declared_names@ == self.snapshot@.dom()
    }

    pub fn new(snapshot: ClientEnvSnapshot) -> (r: Self)
        ensures
            r.declared_env() == snapshot@,
    {
        let keys = snapshot.declared.keys();
        let mut names: NameSet = TextSet::new();
        let mut i: usize = 0;
        proof {
            snapshot.declared.lemma_view_facts();
        }
        let ghost ks = snapshot.declared.key_seq();
        while i < keys.len()
            invariant
                keys@.map_values(|k: EnvName| k@) == ks,
                i <= keys@.len(),
                names@ =~= ks.take(i as int).to_set(),
            decreases keys@.len() - i,
        {
            names.insert(keys[i].clone());
            proof {
                assert(keys@.map_values(|k: EnvName| k@)[i as int] == keys@[i as int]@);
                assert(ks.take(i + 1) =~= ks.take(i as int).push(ks[i as int]));
                ks.take(i as int).lemma_push_to_set_commute(ks[i as int]);
            }
            i = i + 1;
        }
        proof {
            assert(ks.take(i as int) =~= ks);
            assert(names@ =~= snapshot@.dom());
        }
        Self { snapshot, declared_names: names }
    }

    /// Capture the declared set from the host through the `System` seam.
    pub fn from_system<S: System + ?Sized>(sys: &S, declared: &NameSet) -> (r: Self)
        ensures
            super::captured(sys, declared@, r.declared_env()),
    {
        Self::new(ClientEnvSnapshot::capture(sys, declared))
    }

    /// `ClientEnv::get` for any sink: a declared name gives its value and records its node
    /// key once; an undeclared one is the typed error and records nothing.
    pub fn get_into<D: EnvDepSink + ?Sized>(&self, deps: &mut D, name: &EnvName) -> (r: Result<EnvValue, Error>)
        ensures
            self.declared_env().contains_key(name@) ==> {
                &&& r is Ok
                &&& r->Ok_0@ == self.declared_env()[name@]
                &&& final(deps).recorded() == old(deps).recorded().push(env_node_key(name@))
            },
            !self.declared_env().contains_key(name@) ==> {
                &&& r is Err
                &&& r->Err_0@ == undeclared_read(name@)
                &&& final(deps).recorded() == old(deps).recorded()
            },
    {
        match self.snapshot.declared.get(name) {
            Some(v) => {
                deps.record_env_dep(&EnvVarKey { name: name.clone() });
                Ok(v.clone())
            },
            None => Err(
                Error::Invalid {
                    what: "undeclared env read (REQ-PATHENV-002)".to_owned(),
                    detail: name.0.clone(),
                },
            ),
        }
    }

    pub fn snapshot(&self) -> (r: &ClientEnvSnapshot)
        ensures
            r@ == self.declared_env(),
    {
        &self.snapshot
    }
}

impl ClientEnv for DeclaredClientEnv {
    closed spec fn declared_env(&self) -> Map<Seq<char>, Option<Seq<char>>> {
        self.snapshot@
    }

    fn get(&self, deps: &mut dyn EnvDepSink, name: &EnvName) -> (r: Result<EnvValue, Error>)
        ensures
            r matches Err(e) ==> e@ == undeclared_read(name@),
    {
        self.get_into(deps, name)
    }

    fn declared(&self) -> (r: &NameSet) {
        proof {
            use_type_invariant(self);
        }
        &self.declared_names
    }
}

} // verus!
