use vstd::prelude::*;

verus! {

/// The kind of a dependency edge.
#[derive(Clone, Copy, Debug, PartialEq, Eq, Structural)]
pub enum DependencyKind {
    Normal,
    Development,
    Build,
    Unknown,
}

/// One package record of the graph.
pub struct Package {
    pub id: String,
    pub name: String,
    pub version: String,
    pub description: Option<String>,
    pub keywords: Vec<String>,
    pub categories: Vec<String>,
    pub license: Option<String>,
    pub homepage: Option<String>,
    pub repository: Option<String>,
    /// Feature names, in the order of the source data.
    pub features: Vec<String>,
}

/// An edge from a node to the package `pkg`, with the kinds it was declared with.
pub struct NodeDep {
    pub pkg: String,
    pub dep_kinds: Vec<DependencyKind>,
}

/// A node of the resolved graph: a package id and its outgoing edges.
pub struct Node {
    pub id: String,
    pub deps: Vec<NodeDep>,
}

/// A resolved dependency graph, read once and never changed.
pub struct Snapshot {
    pub packages: Vec<Package>,
    pub nodes: Vec<Node>,
    pub workspace_members: Vec<String>,
    pub root: Option<String>,
}

/// What can go wrong while producing a summary.
pub enum Error {
    Io(String),
    NotFound(String),
    Metadata(String),
    TabWriter(String),
    Utf8(String),
}

/// The index of the first element of `s` that satisfies `f`.
pub open spec fn first_index<A>(s: Seq<A>, f: spec_fn(A) -> bool) -> Option<int>
    decreases s.len(),
{
    if s.len() == 0 {
        None
    } else {
        match first_index(s.drop_last(), f) {
            Some(k) => Some(k),
            None => if f(s.last()) {
                Some(s.len() - 1)
            } else {
                None
            },
        }
    }
}

/// What `first_index` yields on a prefix, once it yields an index, it yields on every longer prefix.
pub proof fn lemma_first_index_prefix<A>(s: Seq<A>, f: spec_fn(A) -> bool, i: int, j: int)
    requires
        0 <= i <= j <= s.len(),
        first_index(s.take(i), f) is Some,
    ensures
        first_index(s.take(j), f) == first_index(s.take(i), f),
    decreases j - i,
{
    if j > i {
        lemma_first_index_prefix(s, f, i, j - 1);
        assert(s.take(j).drop_last() =~= s.take(j - 1));
    }
}

/// `first_index` yields an index in range whose element satisfies `f`, and
/// no element before it does.
pub proof fn lemma_first_index_sound<A>(s: Seq<A>, f: spec_fn(A) -> bool)
    ensures
        match first_index(s, f) {
            Some(k) => 0 <= k < s.len() && f(s[k]) && forall|j: int| 0 <= j < k ==> !f(#[trigger] s[j]),
            None => forall|j: int| 0 <= j < s.len() ==> !f(#[trigger] s[j]),
        },
    decreases s.len(),
{
    if s.len() > 0 {
        lemma_first_index_sound(s.drop_last(), f);
        assert forall|j: int| 0 <= j < s.len() - 1 implies s.drop_last()[j] == s[j] by {}
    }
}

impl Package {
    /// Whether a package has the given id.
    pub open spec fn has_id(id: Seq<char>) -> spec_fn(Package) -> bool {
        |p: Package| p.id@ == id
    }
}

impl Node {
    /// Whether a node has the given id.
    pub open spec fn has_id(id: Seq<char>) -> spec_fn(Node) -> bool {
        |n: Node| n.id@ == id
    }
}

impl Snapshot {
    /// Every edge leads to a package of the snapshot.
    pub open spec fn wf(&self) -> bool {
        forall|i: int, j: int|
            0 <= i < self.nodes@.len() && 0 <= j < self.nodes@[i].deps@.len() ==> (#[trigger] first_index(
                self.packages@,
                Package::has_id(self.nodes@[i].deps@[j].pkg@),
            )) is Some
    }

    /// The edges of the first node with the given id.
    pub open spec fn deps_of(&self, id: Seq<char>) -> Option<Seq<NodeDep>> {
        match first_index(self.nodes@, Node::has_id(id)) {
            Some(k) => Some(self.nodes@[k].deps@),
            None => None,
        }
    }

    /// The first package with the given id.
    pub open spec fn package_of(&self, id: Seq<char>) -> Option<Package> {
        match first_index(self.packages@, Package::has_id(id)) {
            Some(k) => Some(self.packages@[k]),
            None => None,
        }
    }
}

} // verus!
