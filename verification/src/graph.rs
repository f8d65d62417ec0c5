//! The build-graph vocabulary this layer hands upward: node kinds, node keys (a kind and a
//! canonical byte encoding), value policies, content digests and the graph error.

use vstd::prelude::*;

verus! {

/// The kind of a graph node.
pub type KindId = u16;

/// The view of a node key: its kind and its canonical encoding.
pub struct NodeKeyView {
    pub kind: u16,
    pub encoded: Seq<u8>,
}

/// The identity of a graph node: its kind and the canonical encoding of its key.
#[derive(PartialEq, Eq, Hash, Debug)]
pub struct NodeKey {
    kind: KindId,
    encoded: Vec<u8>,
}

impl View for NodeKey {
    type V = NodeKeyView;

    closed spec fn view(&self) -> NodeKeyView {
        NodeKeyView { kind: self.kind, encoded: self.encoded@ }
    }
}

impl Clone for NodeKey {
    fn clone(&self) -> (r: Self)
        ensures
            r@ == self@,
    {
        let encoded = self.encoded.clone();
        assert(encoded@ =~= self.encoded@);
        NodeKey { kind: self.kind, encoded }
    }
}

impl NodeKey {
    /// The key of the node of kind `kind` whose key encodes to `encoded`.
    pub fn new(kind: KindId, encoded: Vec<u8>) -> (r: Self)
        ensures
            r@ == (NodeKeyView { kind: kind, encoded: encoded@ }),
    {
        NodeKey { kind, encoded }
    }

    pub fn kind(&self) -> (k: KindId)
        ensures
            k == self@.kind,
    {
        self.kind
    }

    pub fn encoded(&self) -> (b: &[u8])
        ensures
            b@ == self@.encoded,
    {
        self.encoded.as_slice()
    }
}

/// How the engine may treat a value.
#[derive(Clone, Copy, PartialEq, Eq, Debug, Structural)]
pub struct ValuePolicy {
    pub comparable: bool,
    pub always_dirty: bool,
    pub shareable: bool,
    pub serializable: bool,
    pub process_local: bool,
}

/// The content identity of a value: its canonical bytes. The encoding is injective, so two
/// values share a digest exactly when they are equal.
#[derive(PartialEq, Eq, Hash, Debug)]
pub struct Digest(Vec<u8>);

impl View for Digest {
    type V = Seq<u8>;

    closed spec fn view(&self) -> Seq<u8> {
        self.0@
    }
}

impl Digest {
    /// The digest of `bytes`.
    pub fn of(bytes: &[u8]) -> (d: Digest)
        ensures
            d@ == bytes@,
    {
        Digest(vstd::slice::slice_to_vec(bytes))
    }
}

/// A graph-level error.
#[derive(Clone, Debug)]
pub enum Error {
    Invalid { what: String, detail: String },
}

/// The text view of an `Error`.
pub enum ErrorView {
    Invalid { what: Seq<char>, detail: Seq<char> },
}

impl View for Error {
    type V = ErrorView;

    open spec fn view(&self) -> ErrorView {
        match self {
            Error::Invalid { what, detail } => ErrorView::Invalid { what: what@, detail: detail@ },
        }
    }
}

} // verus!
