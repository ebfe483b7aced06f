use vstd::prelude::*;
use crate::brief::Info;
use crate::matching::{glob_match, lemma_star_matches_all, wild_matches};
use crate::model::{first_index, lemma_first_index_prefix, lemma_first_index_sound, DependencyKind, Node, NodeDep, Package, Snapshot};

verus! {

/// An edge is dev-only when the set of its kinds is exactly the development
/// kind: it has at least one kind, and every kind it has is that one.
pub open spec fn is_dev_only(d: NodeDep) -> bool {
    d.dep_kinds@.len() > 0 && forall|i: int| 0 <= i < d.dep_kinds@.len() ==> d.dep_kinds@[i] == DependencyKind::Development
}

/// Whether an edge survives the dev-exclusion filter.
pub open spec fn edge_kept(d: NodeDep, exclude_dev: bool) -> bool {
    !exclude_dev || !is_dev_only(d)
}

/// The packages that the edges `deps` lead to, in edge order, keeping only
/// surviving edges whose package name matches `pattern`.
pub open spec fn selected(s: Snapshot, deps: Seq<NodeDep>, pattern: Seq<char>, exclude_dev: bool) -> Seq<Package>
    decreases deps.len(),
{
    if deps.len() == 0 {
        Seq::empty()
    } else {
        let prev = selected(s, deps.drop_last(), pattern, exclude_dev);
        let d = deps.last();
        let p = s.package_of(d.pkg@).unwrap();
        if edge_kept(d, exclude_dev) && glob_match(pattern, p.name@) {
            prev.push(p)
        } else {
            prev
        }
    }
}

/// The matching dependencies of the package `scope`: none where the graph
/// holds no node for it.
pub open spec fn select(s: Snapshot, scope: Seq<char>, pattern: Seq<char>, exclude_dev: bool) -> Seq<Package> {
    match s.deps_of(scope) {
        Some(deps) => selected(s, deps, pattern, exclude_dev),
        None => Seq::empty(),
    }
}

/// The resolution root of the snapshot, if it has one.
pub fn root(metadata: &Snapshot) -> (r: Option<&String>)
    ensures
        match r {
            Some(id) => metadata.root == Some(*id),
            None => metadata.root is None,
        },
{
    metadata.root.as_ref()
}

/// The edges of the node with the given id.
pub fn dependencies<'a>(metadata: &'a Snapshot, id: &String) -> (r: Option<&'a Vec<NodeDep>>)
    ensures
        match r {
            Some(v) => metadata.deps_of(id@) == Some(v@),
            None => metadata.deps_of(id@) is None,
        },
{
    let ghost f = Node::has_id(id@);
    let mut i: usize = 0;
    while i < metadata.nodes.len()
        invariant
            i <= metadata.nodes@.len(),
            f == Node::has_id(id@),
            first_index(metadata.nodes@.take(i as int), f) is None,
        decreases metadata.nodes@.len() - i,
    {
        let node = &metadata.nodes[i];
        if node.id == *id {
            proof {
                assert(metadata.nodes@.take(i + 1).drop_last() =~= metadata.nodes@.take(i as int));
                lemma_first_index_prefix(metadata.nodes@, f, i + 1, metadata.nodes@.len() as int);
                assert(metadata.nodes@.take(metadata.nodes@.len() as int) =~= metadata.nodes@);
            }
            return Some(&node.deps);
        }
        proof {
            assert(metadata.nodes@.take(i + 1).drop_last() =~= metadata.nodes@.take(i as int));
        }
        i = i + 1;
    }
    proof {
        assert(metadata.nodes@.take(i as int) =~= metadata.nodes@);
    }
    None
}

/// The package with the given id.
pub fn package<'a>(metadata: &'a Snapshot, id: &String) -> (r: Option<&'a Package>)
    ensures
        match r {
            Some(p) => metadata.package_of(id@) == Some(*p),
            None => metadata.package_of(id@) is None,
        },
{
    let ghost f = Package::has_id(id@);
    let mut i: usize = 0;
    while i < metadata.packages.len()
        invariant
            i <= metadata.packages@.len(),
            f == Package::has_id(id@),
            first_index(metadata.packages@.take(i as int), f) is None,
        decreases metadata.packages@.len() - i,
    {
        let p = &metadata.packages[i];
        if p.id == *id {
            proof {
                assert(metadata.packages@.take(i + 1).drop_last() =~= metadata.packages@.take(i as int));
                lemma_first_index_prefix(metadata.packages@, f, i + 1, metadata.packages@.len() as int);
                assert(metadata.packages@.take(metadata.packages@.len() as int) =~= metadata.packages@);
            }
            return Some(p);
        }
        proof {
            assert(metadata.packages@.take(i + 1).drop_last() =~= metadata.packages@.take(i as int));
        }
        i = i + 1;
    }
    proof {
        assert(metadata.packages@.take(i as int) =~= metadata.packages@);
    }
    None
}

impl Snapshot {
    /// Whether every edge leads to a package of the snapshot.
    pub fn well_formed(&self) -> (r: bool)
        ensures
            r == self.wf(),
    {
        let mut i: usize = 0;
        while i < self.nodes.len()
            invariant
                i <= self.nodes@.len(),
                forall|a: int, b: int|
                    0 <= a < i && 0 <= b < self.nodes@[a].deps@.len() ==> (#[trigger] first_index(
                        self.packages@,
                        Package::has_id(self.nodes@[a].deps@[b].pkg@),
                    )) is Some,
            decreases self.nodes@.len() - i,
        {
            let deps = &self.nodes[i].deps;
            let mut j: usize = 0;
            while j < deps.len()
                invariant
                    i < self.nodes@.len(),
                    j <= deps@.len(),
                    deps@ == self.nodes@[i as int].deps@,
                    forall|b: int|
                        0 <= b < j ==> (#[trigger] first_index(
                            self.packages@,
                            Package::has_id(self.nodes@[i as int].deps@[b].pkg@),
                        )) is Some,
                decreases deps@.len() - j,
            {
                if package(self, &deps[j].pkg).is_none() {
                    return false;
                }
                j = j + 1;
            }
            i = i + 1;
        }
        true
    }
}

/// Whether the edge was declared for development only.
pub fn dev_only(dependency: &NodeDep) -> (r: bool)
    ensures
        r == is_dev_only(*dependency),
{
    let kinds = &dependency.dep_kinds;
    let mut i: usize = 0;
    while i < kinds.len()
        invariant
            i <= kinds@.len(),
            kinds == &dependency.dep_kinds,
            forall|j: int| 0 <= j < i ==> kinds@[j] == DependencyKind::Development,
        decreases kinds@.len() - i,
    {
        if kinds[i] != DependencyKind::Development {
            return false;
        }
        i = i + 1;
    }
    kinds.len() > 0
}

/// Whether a package's name matches `pattern`.
pub open spec fn name_matches(pattern: Seq<char>) -> spec_fn(Package) -> bool {
    |x: Package| glob_match(pattern, x.name@)
}

proof fn lemma_selected_filters(s: Snapshot, deps: Seq<NodeDep>, pattern: Seq<char>, exclude_dev: bool)
    ensures
        selected(s, deps, pattern, exclude_dev) == selected(s, deps, seq!['*'], exclude_dev).filter(
            name_matches(pattern),
        ),
    decreases deps.len(),
{
    let pred = name_matches(pattern);
    reveal(Seq::filter);
    if deps.len() == 0 {
        assert(selected(s, deps, seq!['*'], exclude_dev).filter(pred) =~= Seq::<Package>::empty());
    } else {
        lemma_selected_filters(s, deps.drop_last(), pattern, exclude_dev);
        let all = selected(s, deps, seq!['*'], exclude_dev);
        let prev_all = selected(s, deps.drop_last(), seq!['*'], exclude_dev);
        let p = s.package_of(deps.last().pkg@).unwrap();
        lemma_star_matches_all(p.name@);
        if edge_kept(deps.last(), exclude_dev) {
            assert(all == prev_all.push(p));
            assert(all.drop_last() =~= prev_all);
            assert(all.last() == p);
            assert(all.filter(pred) == if pred(p) { prev_all.filter(pred).push(p) } else { prev_all.filter(pred) });
        } else {
            assert(all == prev_all);
        }
    }
}

/// Matching a pattern selects exactly those dependencies, among the ones that
/// the wildcard `*` selects, whose names the pattern matches, in the same order.
pub proof fn lemma_select_is_filter_of_wildcard(s: Snapshot, scope: Seq<char>, pattern: Seq<char>, exclude_dev: bool)
    ensures
        select(s, scope, pattern, exclude_dev) == select(s, scope, seq!['*'], exclude_dev).filter(
            name_matches(pattern),
        ),
{
    match s.deps_of(scope) {
        Some(deps) => lemma_selected_filters(s, deps, pattern, exclude_dev),
        None => {
            reveal(Seq::filter);
            assert(Seq::<Package>::empty().filter(name_matches(pattern)) =~= Seq::<Package>::empty());
        },
    }
}

proof fn lemma_selected_exclude_dev(s: Snapshot, deps: Seq<NodeDep>, pattern: Seq<char>)
    ensures
        forall|x: Package| #[trigger] selected(s, deps, pattern, true).contains(x) ==> selected(s, deps, pattern, false).contains(x),
    decreases deps.len(),
{
    if deps.len() > 0 {
        lemma_selected_exclude_dev(s, deps.drop_last(), pattern);
        let with = selected(s, deps, pattern, true);
        let without = selected(s, deps, pattern, false);
        let prev_with = selected(s, deps.drop_last(), pattern, true);
        let prev_without = selected(s, deps.drop_last(), pattern, false);
        assert forall|x: Package| with.contains(x) implies without.contains(x) by {
            let i = choose|i: int| 0 <= i < with.len() && with[i] == x;
            if i < prev_with.len() {
                assert(prev_with[i] == x);
                assert(prev_with.contains(x));
                assert(prev_without.contains(x));
                let m = choose|m: int| 0 <= m < prev_without.len() && prev_without[m] == x;
                assert(without[m] == x);
            } else {
                assert(without.last() == x);
                assert(without[without.len() - 1] == x);
            }
        }
    }
}

/// Leaving out development-only edges never adds a package: whatever is
/// selected with the exclusion is selected without it too.
pub proof fn lemma_exclude_dev_subset(s: Snapshot, scope: Seq<char>, pattern: Seq<char>, x: Package)
    requires
        select(s, scope, pattern, true).contains(x),
    ensures
        select(s, scope, pattern, false).contains(x),
{
    if let Some(deps) = s.deps_of(scope) {
        lemma_selected_exclude_dev(s, deps, pattern);
    }
}

/// Packages as plain values, in the order given.
pub open spec fn derefs(v: Seq<&Package>) -> Seq<Package> {
    v.map_values(|p: &Package| *p)
}

/// The dependencies of the package `root` that `opt` selects, in edge order.
pub fn member<'a>(opt: &Info, metadata: &'a Snapshot, root: &String) -> (r: Vec<&'a Package>)
    requires
        metadata.wf(),
    ensures
        derefs(r@) == select(*metadata, root@, opt.package@, opt.no_dev),
{
    let mut r: Vec<&'a Package> = Vec::new();
    let deps = match dependencies(metadata, root) {
        Some(deps) => deps,
        None => {
            proof {
                assert(derefs(r@) =~= Seq::<Package>::empty());
            }
            return r;
        },
    };
    let ghost k = first_index(metadata.nodes@, Node::has_id(root@)).unwrap();
    proof {
        lemma_first_index_sound(metadata.nodes@, Node::has_id(root@));
        assert(derefs(r@) =~= selected(*metadata, deps@.take(0), opt.package@, opt.no_dev));
    }
    let mut j: usize = 0;
    while j < deps.len()
        invariant
            j <= deps@.len(),
            metadata.wf(),
            0 <= k < metadata.nodes@.len(),
            deps@ == metadata.nodes@[k].deps@,
            derefs(r@) == selected(*metadata, deps@.take(j as int), opt.package@, opt.no_dev),
        decreases deps@.len() - j,
    {
        let d = &deps[j];
        proof {
            assert(deps@.take(j + 1).drop_last() =~= deps@.take(j as int));
            assert(deps@.take(j + 1).last() == *d);
            assert(first_index(metadata.packages@, Package::has_id(metadata.nodes@[k].deps@[j as int].pkg@)) is Some);
        }
        if !opt.no_dev || !dev_only(d) {
            match package(metadata, &d.pkg) {
                Some(p) => {
                    if wild_matches(opt.package.as_str(), p.name.as_str()) {
                        r.push(p);
                        proof {
                            assert(derefs(r@) =~= selected(*metadata, deps@.take(j as int), opt.package@, opt.no_dev).push(*p));
                        }
                    }
                },
                None => {},
            }
        }
        j = j + 1;
    }
    proof {
        assert(deps@.take(j as int) =~= deps@);
    }
    r
}

} // verus!
