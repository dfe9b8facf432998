//! The order in which the packages of a workspace can be released.
//!
//! A package is released after every package it depends on. Which declared
//! dependencies count is decided by [`honored`]; the order itself is the
//! depth-first post-order of [`crate::graph`], walked from the packages in the
//! order they were given.
use crate::graph::{
    appears_before, closes_cycle, graph_wf, has_cycle, has_edge, lemma_closing_edge_is_cycle,
    lemma_distinct_nodes_bounded, lemma_valid_order_excludes_cycles, lemma_visit,
    lemma_visit_roots, nodes_in_range, valid_order, valid_stack, visit, visit_dependencies,
    visit_roots,
};
use crate::text::{chars_of, find_char, position};
use vstd::prelude::*;
use vstd::seq_lib::seq_to_set_is_finite;
use vstd::set_lib::{lemma_int_range, lemma_len_subset, set_int_range};

verus! {

/// How a package declares a dependency.
#[derive(Clone, Copy, Debug, PartialEq, Eq, Structural)]
pub enum DependencyKind {
    Normal,
    Development,
    Build,
}

/// One declared dependency of a package.
#[derive(Clone, Debug)]
pub struct Dependency {
    pub name: String,
    pub kind: DependencyKind,
    /// The dependency is named on the left of a `name/feature` entry of one of
    /// the package's features.
    pub feature_gated: bool,
}

pub struct DependencyView {
    pub name: Seq<char>,
    pub kind: DependencyKind,
    pub feature_gated: bool,
}

impl View for Dependency {
    type V = DependencyView;

    open spec fn view(&self) -> DependencyView {
        DependencyView { name: self.name@, kind: self.kind, feature_gated: self.feature_gated }
    }
}

/// The feature entry `entry` has the form `name/feature`: `name` is all that
/// stands before its first `/`.
pub open spec fn entry_names(entry: Seq<char>, name: Seq<char>) -> bool {
    position(entry, '/') < entry.len() && entry.subrange(0, position(entry, '/')) == name
}

/// Some entry of some feature has the form `name/feature`.
pub open spec fn features_name(features: Seq<Seq<Seq<char>>>, name: Seq<char>) -> bool {
    exists|f: int, e: int|
        0 <= f < features.len() && 0 <= e < features[f].len() && entry_names(
            #[trigger] features[f][e],
            name,
        )
}

/// The entries of each feature definition, as text.
pub open spec fn feature_views(features: Seq<Vec<String>>) -> Seq<Seq<Seq<char>>> {
    features.map_values(|f: Vec<String>| f@.map_values(|e: String| e@))
}

fn entry_names_exec(entry: &str, name: &Vec<char>) -> (r: bool)
    ensures
        r == entry_names(entry@, name@),
{
    let chars = chars_of(entry);
    let slash = find_char(&chars, '/');
    if slash >= chars.len() || slash != name.len() {
        return false;
    }
    let mut i: usize = 0;
    while i < slash
        invariant
            chars@ == entry@,
            slash < chars.len(),
            slash == name.len(),
            slash as int == position(entry@, '/'),
            i <= slash,
            forall|j: int| 0 <= j < i ==> chars@[j] == name@[j],
        decreases slash - i,
    {
        if chars[i] != name[i] {
            assert(entry@.subrange(0, slash as int)[i as int] != name@[i as int]);
            return false;
        }
        i += 1;
    }
    assert(entry@.subrange(0, slash as int) =~= name@);
    true
}

impl Dependency {
    /// A dependency as a package declares it. `features` holds the entries of
    /// each feature the package defines; the dependency is feature gated when
    /// one of them has the form `name/feature`.
    pub fn new(name: String, kind: DependencyKind, features: &Vec<Vec<String>>) -> (d: Dependency)
        ensures
            d@ == (DependencyView {
                name: name@,
                kind,
                feature_gated: features_name(feature_views(features@), name@),
            }),
    {
        let ghost views = feature_views(features@);
        let chars = chars_of(name.as_str());
        let mut gated = false;
        let mut f: usize = 0;
        while f < features.len() && !gated
            invariant
                views == feature_views(features@),
                chars@ == name@,
                f <= features.len(),
                gated ==> features_name(views, name@),
                !gated ==> forall|a: int, e: int|
                    0 <= a < f && 0 <= e < views[a].len() ==> !entry_names(
                        #[trigger] views[a][e],
                        name@,
                    ),
            decreases features.len() - f + if gated { 0int } else { 1int },
        {
            let entries = &features[f];
            let mut e: usize = 0;
            while e < entries.len() && !gated
                invariant
                    views == feature_views(features@),
                    chars@ == name@,
                    f < features.len(),
                    entries == features@[f as int],
                    e <= entries.len(),
                    gated ==> features_name(views, name@),
                    !gated ==> forall|b: int|
                        0 <= b < e ==> !entry_names(#[trigger] views[f as int][b], name@),
                decreases entries.len() - e + if gated { 0int } else { 1int },
            {
                assert(views[f as int][e as int] == entries@[e as int]@);
                if entry_names_exec(entries[e].as_str(), &chars) {
                    gated = true;
                } else {
                    e += 1;
                }
            }
            if !gated {
                f += 1;
            }
        }
        Dependency { name, kind, feature_gated: gated }
    }
}

/// A releasable package of the workspace.
#[derive(Clone, Debug)]
pub struct Package {
    pub name: String,
    pub version: String,
    pub root_dir: String,
    pub manifest_path: String,
    /// The manifest does not restrict where the package may be published.
    pub publishable: bool,
    pub dependencies: Vec<Dependency>,
}

pub struct PackageView {
    pub name: Seq<char>,
    pub version: Seq<char>,
    pub root_dir: Seq<char>,
    pub manifest_path: Seq<char>,
    pub publishable: bool,
    pub dependencies: Seq<DependencyView>,
}

impl View for Package {
    type V = PackageView;

    open spec fn view(&self) -> PackageView {
        PackageView {
            name: self.name@,
            version: self.version@,
            root_dir: self.root_dir@,
            manifest_path: self.manifest_path@,
            publishable: self.publishable,
            dependencies: self.dependencies@.map_values(|d: Dependency| d@),
        }
    }
}

/// Two packages depend on each other, directly or through others.
#[derive(Debug)]
pub enum CycleError {
    /// `to` depends directly on `from`, and `from` depends on `to`, directly or
    /// through other packages.
    CircularDependency { from: String, to: String },
}

pub struct CycleView {
    pub from: Seq<char>,
    pub to: Seq<char>,
}

impl View for CycleError {
    type V = CycleView;

    open spec fn view(&self) -> CycleView {
        match self {
            CycleError::CircularDependency { from, to } => CycleView { from: from@, to: to@ },
        }
    }
}

pub open spec fn package_views(packages: Seq<&Package>) -> Seq<PackageView> {
    packages.map_values(|p: &Package| p@)
}

/// A declared dependency constrains the release order when it is a normal or a
/// build dependency, or when a feature of the package names it.
pub open spec fn honored(d: DependencyView) -> bool {
    d.kind is Normal || d.kind is Build || d.feature_gated
}

/// The first position at or after `start` of a package called `name`, or
/// `packages.len()` where there is none.
pub open spec fn first_index_from(packages: Seq<PackageView>, name: Seq<char>, start: int) -> int
    decreases packages.len() - start,
{
    if start < 0 || start >= packages.len() {
        packages.len() as int
    } else if packages[start].name == name {
        start
    } else {
        first_index_from(packages, name, start + 1)
    }
}

/// The position of the package that stands for `name`: the first one so called.
pub open spec fn first_index(packages: Seq<PackageView>, name: Seq<char>) -> int {
    first_index_from(packages, name, 0)
}

/// The packages that the first `upto` declared dependencies of package `i` make
/// it wait for, in declaration order. A dependency counts when it is honored,
/// is not the package's own name and names a package that is being released.
pub open spec fn edge_targets(packages: Seq<PackageView>, i: int, upto: int) -> Seq<int>
    decreases upto,
{
    if upto <= 0 {
        Seq::empty()
    } else {
        let earlier = edge_targets(packages, i, upto - 1);
        let d = packages[i].dependencies[upto - 1];
        let j = first_index(packages, d.name);
        if honored(d) && d.name != packages[i].name && j < packages.len() {
            earlier.push(j)
        } else {
            earlier
        }
    }
}

/// The dependency graph of the packages: node `i` is `packages[i]`.
pub open spec fn dependency_graph(packages: Seq<PackageView>) -> Seq<Seq<int>> {
    Seq::new(
        packages.len(),
        |i: int| edge_targets(packages, i, packages[i].dependencies.len() as int),
    )
}

/// Where the walks start: for each package in turn, the package that stands
/// for its name.
pub open spec fn release_roots(packages: Seq<PackageView>) -> Seq<int> {
    Seq::new(packages.len(), |i: int| first_index(packages, packages[i].name))
}

/// The release order as positions in `packages`, or the edge that closes a
/// cycle as `(from, to)`.
pub open spec fn release_order_indices(packages: Seq<PackageView>) -> Result<Seq<int>, (int, int)> {
    visit_roots(dependency_graph(packages), release_roots(packages), 0, Seq::empty())
}

/// No two packages share a name.
pub open spec fn distinct_names(packages: Seq<PackageView>) -> bool {
    forall|i: int, j: int|
        0 <= i < packages.len() && 0 <= j < packages.len() && i != j ==> packages[i].name
            != packages[j].name
}

pub proof fn lemma_first_index_from(packages: Seq<PackageView>, name: Seq<char>, start: int)
    requires
        0 <= start <= packages.len(),
    ensures
        start <= first_index_from(packages, name, start) <= packages.len(),
        first_index_from(packages, name, start) < packages.len() ==> packages[first_index_from(
            packages,
            name,
            start,
        )].name == name,
        forall|j: int|
            start <= j < first_index_from(packages, name, start) ==> (#[trigger] packages[j]).name
                != name,
    decreases packages.len() - start,
{
    if start < packages.len() && packages[start].name != name {
        lemma_first_index_from(packages, name, start + 1);
    }
}

/// The package that stands for a name stands for itself.
pub proof fn lemma_first_index_idempotent(packages: Seq<PackageView>, name: Seq<char>)
    ensures
        first_index(packages, name) < packages.len() ==> first_index(
            packages,
            packages[first_index(packages, name)].name,
        ) == first_index(packages, name),
{
    lemma_first_index_from(packages, name, 0);
}

pub proof fn lemma_edge_targets(packages: Seq<PackageView>, i: int, upto: int)
    requires
        0 <= i < packages.len(),
        0 <= upto <= packages[i].dependencies.len(),
    ensures
        forall|k: int|
            0 <= k < edge_targets(packages, i, upto).len() ==> {
                let t = #[trigger] edge_targets(packages, i, upto)[k];
                &&& 0 <= t < packages.len()
                &&& t != i
                &&& first_index(packages, packages[t].name) == t
            },
    decreases upto,
{
    if upto > 0 {
        lemma_edge_targets(packages, i, upto - 1);
        let earlier = edge_targets(packages, i, upto - 1);
        let d = packages[i].dependencies[upto - 1];
        lemma_first_index_from(packages, d.name, 0);
        lemma_first_index_idempotent(packages, d.name);
        assert forall|k: int| 0 <= k < edge_targets(packages, i, upto).len() implies {
            let t = #[trigger] edge_targets(packages, i, upto)[k];
            &&& 0 <= t < packages.len()
            &&& t != i
            &&& first_index(packages, packages[t].name) == t
        } by {
            if k < earlier.len() {
                assert(edge_targets(packages, i, upto)[k] == earlier[k]);
            }
        }
    }
}

/// The dependency graph is well formed, and each of its edges ends at a
/// package that stands for its own name.
pub proof fn lemma_dependency_graph(packages: Seq<PackageView>)
    ensures
        graph_wf(dependency_graph(packages)),
        nodes_in_range(dependency_graph(packages), release_roots(packages)),
        forall|u: int, k: int|
            #![trigger dependency_graph(packages)[u][k]]
            0 <= u < packages.len() && 0 <= k < dependency_graph(packages)[u].len()
                ==> release_roots(packages)[dependency_graph(packages)[u][k]] == dependency_graph(
                packages,
            )[u][k],
{
    let g = dependency_graph(packages);
    assert forall|u: int, k: int|
        #![trigger g[u][k]]
        0 <= u < g.len() && 0 <= k < g[u].len() implies 0 <= g[u][k] < g.len() && release_roots(
        packages,
    )[g[u][k]] == g[u][k] by {
        lemma_edge_targets(packages, u, packages[u].dependencies.len() as int);
    }
    assert forall|i: int| 0 <= i < release_roots(packages).len() implies 0 <= #[trigger] release_roots(
        packages,
    )[i] < g.len() by {
        lemma_first_index_from(packages, packages[i].name, 0);
    }
}


/// What the release order is: with no cycle among the packages, an order
/// without repeats in which every package stands after all it depends on and
/// which holds the package that stands for each name; with a cycle, an edge
/// that closes one. The order exists exactly when there is no cycle.
pub proof fn lemma_release_order(packages: Seq<PackageView>)
    ensures
        match release_order_indices(packages) {
            Ok(order) => {
                &&& valid_order(dependency_graph(packages), order)
                &&& forall|i: int|
                    0 <= i < packages.len() ==> order.contains(
                        first_index(packages, #[trigger] packages[i].name),
                    )
                &&& !has_cycle(dependency_graph(packages))
            },
            Err((from, to)) => {
                &&& closes_cycle(dependency_graph(packages), from, to)
                &&& has_cycle(dependency_graph(packages))
            },
        },
{
    let g = dependency_graph(packages);
    let roots = release_roots(packages);
    lemma_dependency_graph(packages);
    lemma_visit_roots(g, roots, 0, Seq::empty());
    match release_order_indices(packages) {
        Ok(order) => {
            assert forall|i: int| 0 <= i < packages.len() implies order.contains(
                first_index(packages, #[trigger] packages[i].name),
            ) by {
                assert(order.contains(roots[i]));
            }
            assert forall|u: int, k: int|
                #![trigger g[u][k]]
                0 <= u < g.len() && 0 <= k < g[u].len() implies order.contains(g[u][k]) by {
                assert(roots[g[u][k]] == g[u][k]);
                assert(order.contains(roots[g[u][k]]));
            }
            lemma_valid_order_excludes_cycles(g, order);
        },
        Err((from, to)) => {
            lemma_closing_edge_is_cycle(g, from, to);
        },
    }
}

/// A counted dependency is an edge of the dependency graph.
pub proof fn lemma_dependency_is_edge(packages: Seq<PackageView>, i: int, k: int, upto: int)
    requires
        0 <= i < packages.len(),
        0 <= k < upto <= packages[i].dependencies.len(),
        honored(packages[i].dependencies[k]),
        packages[i].dependencies[k].name != packages[i].name,
        first_index(packages, packages[i].dependencies[k].name) < packages.len(),
    ensures
        edge_targets(packages, i, upto).contains(
            first_index(packages, packages[i].dependencies[k].name),
        ),
    decreases upto,
{
    let t = first_index(packages, packages[i].dependencies[k].name);
    let all = edge_targets(packages, i, upto);
    let earlier = edge_targets(packages, i, upto - 1);
    if k == upto - 1 {
        assert(all[all.len() - 1] == t);
    } else {
        lemma_dependency_is_edge(packages, i, k, upto - 1);
        let q = choose|q: int| 0 <= q < earlier.len() && earlier[q] == t;
        assert(all[q] == t);
    }
}

/// Package `i` stands in `order`, and a package called `name` stands before
/// it.
pub open spec fn released_after(
    packages: Seq<PackageView>,
    order: Seq<int>,
    i: int,
    name: Seq<char>,
) -> bool {
    exists|p: int, q: int|
        0 <= q < p < order.len() && #[trigger] order[p] == i && packages[#[trigger] order[q]].name
            == name
}

/// Without a cycle among the packages there is a release order, and in it
/// every package stands strictly after each package it depends on: where
/// package `i` stands for its name and its `k`-th dependency is honored, is
/// not the package itself and names a package being released, `i` stands in
/// the order and a package of the dependency's name stands before it.
pub proof fn lemma_dependencies_released_first(packages: Seq<PackageView>, i: int, k: int)
    requires
        !has_cycle(dependency_graph(packages)),
        0 <= i < packages.len(),
        first_index(packages, packages[i].name) == i,
        0 <= k < packages[i].dependencies.len(),
        honored(packages[i].dependencies[k]),
        packages[i].dependencies[k].name != packages[i].name,
        first_index(packages, packages[i].dependencies[k].name) < packages.len(),
    ensures
        release_order_indices(packages) is Ok,
        released_after(
            packages,
            release_order_indices(packages)->Ok_0,
            i,
            packages[i].dependencies[k].name,
        ),
{
    lemma_release_order(packages);
    let g = dependency_graph(packages);
    let order = release_order_indices(packages)->Ok_0;
    let d = packages[i].dependencies[k];
    let t = first_index(packages, d.name);
    assert(order.contains(first_index(packages, packages[i].name)));
    let p = choose|p: int| 0 <= p < order.len() && order[p] == i;
    lemma_dependency_is_edge(packages, i, k, packages[i].dependencies.len() as int);
    let e = choose|e: int| 0 <= e < g[i].len() && g[i][e] == t;
    assert(appears_before(order, g[order[p]][e], p));
    let q = choose|q: int| 0 <= q < p && q < order.len() && order[q] == t;
    lemma_first_index_from(packages, d.name, 0);
    assert(order[p] == i && packages[order[q]].name == d.name);
}

/// With a cycle among the packages no order is given: the result is the
/// error, and it names the two ends of an edge that closes a cycle.
pub proof fn lemma_cycle_is_rejected(packages: Seq<PackageView>)
    requires
        has_cycle(dependency_graph(packages)),
    ensures
        release_order_indices(packages) is Err,
        closes_cycle(
            dependency_graph(packages),
            release_order_indices(packages)->Err_0.0,
            release_order_indices(packages)->Err_0.1,
        ),
{
    lemma_release_order(packages);
}

/// The release order holds no package twice; where no two packages share a
/// name it holds every package, so it is a rearrangement of them.
pub proof fn lemma_release_order_is_permutation(packages: Seq<PackageView>)
    requires
        release_order_indices(packages) is Ok,
    ensures
        release_order_indices(packages)->Ok_0.no_duplicates(),
        release_order_indices(packages)->Ok_0.len() <= packages.len(),
        distinct_names(packages) ==> {
            &&& release_order_indices(packages)->Ok_0.len() == packages.len()
            &&& forall|i: int|
                0 <= i < packages.len() ==> release_order_indices(packages)->Ok_0.contains(i)
        },
{
    lemma_release_order(packages);
    let g = dependency_graph(packages);
    let order = release_order_indices(packages)->Ok_0;
    lemma_distinct_nodes_bounded(g, order);
    if distinct_names(packages) {
        assert forall|i: int| 0 <= i < packages.len() implies order.contains(i) by {
            lemma_first_index_from(packages, packages[i].name, 0);
            assert(order.contains(first_index(packages, packages[i].name)));
        }
        let n = packages.len() as int;
        lemma_int_range(0, n);
        seq_to_set_is_finite(order);
        assert(set_int_range(0, n).subset_of(order.to_set()));
        lemma_len_subset(set_int_range(0, n), order.to_set());
        order.unique_seq_to_set();
    }
}

/// `packages` with the `k`-th declared dependency of package `i` taken out.
pub open spec fn without_dependency(packages: Seq<PackageView>, i: int, k: int) -> Seq<
    PackageView,
> {
    packages.update(
        i,
        PackageView {
            name: packages[i].name,
            version: packages[i].version,
            root_dir: packages[i].root_dir,
            manifest_path: packages[i].manifest_path,
            publishable: packages[i].publishable,
            dependencies: packages[i].dependencies.remove(k),
        },
    )
}

proof fn lemma_first_index_same_names(
    a: Seq<PackageView>,
    b: Seq<PackageView>,
    name: Seq<char>,
    start: int,
)
    requires
        a.len() == b.len(),
        forall|j: int| 0 <= j < a.len() ==> (#[trigger] a[j]).name == b[j].name,
    ensures
        first_index_from(a, name, start) == first_index_from(b, name, start),
    decreases a.len() - start,
{
    if 0 <= start < a.len() {
        assert(a[start].name == b[start].name);
        if a[start].name != name {
            lemma_first_index_same_names(a, b, name, start + 1);
        }
    }
}

proof fn lemma_edge_targets_same_dependencies(
    a: Seq<PackageView>,
    b: Seq<PackageView>,
    u: int,
    upto: int,
)
    requires
        a.len() == b.len(),
        forall|j: int| 0 <= j < a.len() ==> (#[trigger] a[j]).name == b[j].name,
        0 <= u < a.len(),
        a[u].dependencies == b[u].dependencies,
    ensures
        edge_targets(a, u, upto) == edge_targets(b, u, upto),
    decreases upto,
{
    if upto > 0 {
        lemma_edge_targets_same_dependencies(a, b, u, upto - 1);
        lemma_first_index_same_names(a, b, a[u].dependencies[upto - 1].name, 0);
        assert(a[u].name == b[u].name);
    }
}

proof fn lemma_edge_targets_without(packages: Seq<PackageView>, i: int, k: int, upto: int)
    requires
        0 <= i < packages.len(),
        0 <= k < packages[i].dependencies.len(),
        !honored(packages[i].dependencies[k]),
        0 <= upto < packages[i].dependencies.len(),
    ensures
        edge_targets(without_dependency(packages, i, k), i, upto) == edge_targets(
            packages,
            i,
            if upto <= k {
                upto
            } else {
                upto + 1
            },
        ),
    decreases upto,
{
    let shorter = without_dependency(packages, i, k);
    if upto > 0 {
        lemma_edge_targets_without(packages, i, k, upto - 1);
        let d = shorter[i].dependencies[upto - 1];
        lemma_first_index_same_names(shorter, packages, d.name, 0);
        assert(shorter[i].name == packages[i].name);
        if upto - 1 < k {
            assert(d == packages[i].dependencies[upto - 1]);
        } else {
            assert(d == packages[i].dependencies[upto]);
            if upto - 1 == k {
                assert(edge_targets(packages, i, k + 1) == edge_targets(packages, i, k));
            }
        }
    }
}

/// A development dependency that no feature names does not constrain the
/// release order: taking it out changes neither the dependency graph nor the
/// result.
pub proof fn lemma_ungated_dev_dependency_ignored(packages: Seq<PackageView>, i: int, k: int)
    requires
        0 <= i < packages.len(),
        0 <= k < packages[i].dependencies.len(),
        packages[i].dependencies[k].kind is Development,
        !packages[i].dependencies[k].feature_gated,
    ensures
        dependency_graph(without_dependency(packages, i, k)) == dependency_graph(packages),
        release_order_indices(without_dependency(packages, i, k)) == release_order_indices(
            packages,
        ),
{
    let shorter = without_dependency(packages, i, k);
    let deps = packages[i].dependencies;
    deps.remove_ensures(k);
    assert forall|u: int| 0 <= u < packages.len() implies #[trigger] dependency_graph(shorter)[u]
        == dependency_graph(packages)[u] by {
        if u == i {
            lemma_edge_targets_without(packages, i, k, deps.len() - 1);
        } else {
            lemma_edge_targets_same_dependencies(
                shorter,
                packages,
                u,
                packages[u].dependencies.len() as int,
            );
        }
    }
    assert(dependency_graph(shorter) =~= dependency_graph(packages));
    assert forall|u: int| 0 <= u < packages.len() implies #[trigger] release_roots(shorter)[u]
        == release_roots(packages)[u] by {
        lemma_first_index_same_names(shorter, packages, packages[u].name, 0);
    }
    assert(release_roots(shorter) =~= release_roots(packages));
}

/// A development dependency that a feature names constrains the release
/// order like any other: without a cycle, a package of the dependency's name
/// stands before the package that declares it.
pub proof fn lemma_gated_dev_dependency_constrains(packages: Seq<PackageView>, i: int, k: int)
    requires
        !has_cycle(dependency_graph(packages)),
        0 <= i < packages.len(),
        first_index(packages, packages[i].name) == i,
        0 <= k < packages[i].dependencies.len(),
        packages[i].dependencies[k].kind is Development,
        packages[i].dependencies[k].feature_gated,
        packages[i].dependencies[k].name != packages[i].name,
        first_index(packages, packages[i].dependencies[k].name) < packages.len(),
    ensures
        release_order_indices(packages) is Ok,
        released_after(
            packages,
            release_order_indices(packages)->Ok_0,
            i,
            packages[i].dependencies[k].name,
        ),
{
    lemma_dependencies_released_first(packages, i, k);
}

/// The adjacency lists of an executable graph, as positions.
pub open spec fn adjacency(adj: Seq<Vec<usize>>) -> Seq<Seq<int>> {
    Seq::new(adj.len(), |i: int| positions(adj[i]@))
}

pub open spec fn positions(order: Seq<usize>) -> Seq<int> {
    order.map_values(|t: usize| t as int)
}

/// The flags say of each node whether `nodes` holds it.
pub open spec fn marks(flags: Seq<bool>, nodes: Seq<int>) -> bool {
    forall|x: int| 0 <= x < flags.len() ==> #[trigger] flags[x] == nodes.contains(x)
}

fn find_package(packages: &[&Package], name: &String) -> (r: usize)
    ensures
        r as int == first_index(package_views(packages@), name@),
{
    let ghost views = package_views(packages@);
    let mut i: usize = 0;
    while i < packages.len()
        invariant
            i <= packages.len(),
            views == package_views(packages@),
            first_index_from(views, name@, i as int) == first_index(views, name@),
        decreases packages.len() - i,
    {
        if packages[i].name == *name {
            return i;
        }
        i += 1;
    }
    i
}

fn is_honored(d: &Dependency) -> (r: bool)
    ensures
        r == honored(d@),
{
    match d.kind {
        DependencyKind::Normal => true,
        DependencyKind::Build => true,
        DependencyKind::Development => d.feature_gated,
    }
}

fn dependency_targets(packages: &[&Package], i: usize) -> (targets: Vec<usize>)
    requires
        i < packages.len(),
    ensures
        positions(targets@) == dependency_graph(package_views(packages@))[i as int],
{
    let ghost views = package_views(packages@);
    let package = packages[i];
    let mut targets: Vec<usize> = Vec::new();
    let mut k: usize = 0;
    while k < package.dependencies.len()
        invariant
            i < packages.len(),
            package == packages[i as int],
            views == package_views(packages@),
            k <= package.dependencies.len(),
            positions(targets@) == edge_targets(views, i as int, k as int),
        decreases package.dependencies.len() - k,
    {
        let d = &package.dependencies[k];
        assert(views[i as int].dependencies[k as int] == d@);
        if is_honored(d) && d.name != package.name {
            let j = find_package(packages, &d.name);
            if j < packages.len() {
                assert(positions(targets@.push(j)) == positions(targets@).push(j as int));
                targets.push(j);
            }
        }
        k += 1;
    }
    targets
}

fn build_graph(packages: &[&Package]) -> (adj: Vec<Vec<usize>>)
    ensures
        adjacency(adj@) == dependency_graph(package_views(packages@)),
{
    let mut adj: Vec<Vec<usize>> = Vec::new();
    let mut i: usize = 0;
    while i < packages.len()
        invariant
            i <= packages.len(),
            adj.len() == i,
            forall|u: int|
                0 <= u < i ==> positions(#[trigger] adj[u]@) == dependency_graph(
                    package_views(packages@),
                )[u],
        decreases packages.len() - i,
    {
        let targets = dependency_targets(packages, i);
        adj.push(targets);
        i += 1;
    }
    assert(adjacency(adj@) =~= dependency_graph(package_views(packages@)));
    adj
}

/// Walks from `v`; `None` when `v` and what it needed are placed, or the edge
/// that closes a cycle.
fn walk(
    adj: &Vec<Vec<usize>>,
    v: usize,
    on_stack: &mut Vec<bool>,
    placed: &mut Vec<bool>,
    order: &mut Vec<usize>,
    Ghost(stack): Ghost<Seq<int>>,
) -> (r: Option<(usize, usize)>)
    requires
        graph_wf(adjacency(adj@)),
        v < adj.len(),
        old(on_stack).len() == adj.len(),
        old(placed).len() == adj.len(),
        marks(old(on_stack)@, stack),
        marks(old(placed)@, positions(old(order)@)),
        valid_order(adjacency(adj@), positions(old(order)@)),
        valid_stack(adjacency(adj@), stack, positions(old(order)@)),
        !stack.contains(v as int),
        stack.len() > 0 ==> has_edge(adjacency(adj@), stack.last(), v as int),
    ensures
        match visit(adjacency(adj@), v as int, stack, positions(old(order)@)) {
            Ok(next) => {
                &&& r is None
                &&& positions(final(order)@) == next
                &&& final(on_stack).len() == adj.len()
                &&& final(placed).len() == adj.len()
                &&& marks(final(on_stack)@, stack)
                &&& marks(final(placed)@, next)
            },
            Err((a, b)) => r matches Some((from, to)) && from == a && to == b && from < adj.len()
                && to < adj.len(),
        },
    decreases adj.len() - stack.len(), 0int, 0int,
{
    let ghost g = adjacency(adj@);
    let ghost start = positions(order@);
    if placed[v] {
        return None;
    }
    assert(!start.contains(v as int));
    let ghost longer = stack.push(v as int);
    proof {
        assert(nodes_in_range(g, longer));
        assert(longer.no_duplicates()) by {
            assert forall|i: int, j: int|
                0 <= i < longer.len() && 0 <= j < longer.len() && i != j implies longer[i]
                != longer[j] by {
                if i < stack.len() && j < stack.len() {
                } else if i < stack.len() {
                    assert(stack[i] == longer[i]);
                } else {
                    assert(stack[j] == longer[j]);
                }
            }
        }
        lemma_distinct_nodes_bounded(g, longer);
        assert(valid_stack(g, longer, start)) by {
            assert forall|i: int| 0 <= i < longer.len() - 1 implies has_edge(
                g,
                #[trigger] longer[i],
                longer[i + 1],
            ) by {
                if i < stack.len() - 1 {
                    assert(has_edge(g, stack[i], stack[i + 1]));
                } else {
                    assert(longer[i] == stack.last());
                }
            }
        }
    }
    on_stack.set(v, true);
    proof {
        assert(marks(on_stack@, longer)) by {
            assert forall|x: int| 0 <= x < on_stack@.len() implies #[trigger] on_stack@[x]
                == longer.contains(x) by {
                if x == v {
                    assert(longer[longer.len() - 1] == x);
                } else if stack.contains(x) {
                    let i = choose|i: int| 0 <= i < stack.len() && stack[i] == x;
                    assert(longer[i] == x);
                } else if longer.contains(x) {
                    let i = choose|i: int| 0 <= i < longer.len() && longer[i] == x;
                    assert(stack[i] == x);
                }
            }
        }
    }
    let deps = &adj[v];
    let mut k: usize = 0;
    while k < deps.len()
        invariant
            g == adjacency(adj@),
            graph_wf(g),
            v < adj.len(),
            deps == adj[v as int],
            k <= deps.len(),
            longer == stack.push(v as int),
            longer.len() <= adj.len(),
            start == positions(old(order)@),
            on_stack.len() == adj.len(),
            placed.len() == adj.len(),
            marks(on_stack@, longer),
            marks(placed@, positions(order@)),
            valid_order(g, positions(order@)),
            valid_stack(g, longer, positions(order@)),
            visit_dependencies(g, v as int, k as int, longer, positions(order@)) == visit(
                g,
                v as int,
                stack,
                start,
            ),
        decreases deps.len() - k,
    {
        let c = deps[k];
        assert(g[v as int][k as int] == c as int);
        assert(has_edge(g, v as int, c as int));
        assert(0 <= g[v as int][k as int] < g.len());
        if on_stack[c] {
            assert(longer.contains(c as int));
            assert(visit_dependencies(g, v as int, k as int, longer, positions(order@)) == Err::<
                Seq<int>,
                (int, int),
            >((c as int, v as int)));
            return Some((c, v));
        }
        assert(!longer.contains(c as int));
        proof {
            lemma_visit(g, c as int, longer, positions(order@));
        }
        match walk(adj, c, on_stack, placed, order, Ghost(longer)) {
            Some(e) => {
                return Some(e);
            },
            None => {},
        }
        k += 1;
    }
    proof {
        let before = positions(order@);
        assert(positions(order@.push(v)) == before.push(v as int));
        assert(!before.contains(v as int)) by {
            assert(longer[longer.len() - 1] == v as int);
        }
        assert(marks(placed@.update(v as int, true), before.push(v as int))) by {
            let after = before.push(v as int);
            assert forall|x: int| 0 <= x < placed@.len() implies #[trigger] placed@.update(
                v as int,
                true,
            )[x] == after.contains(x) by {
                if x == v {
                    assert(after[after.len() - 1] == x);
                } else if before.contains(x) {
                    let i = choose|i: int| 0 <= i < before.len() && before[i] == x;
                    assert(after[i] == x);
                } else if after.contains(x) {
                    let i = choose|i: int| 0 <= i < after.len() && after[i] == x;
                    assert(before[i] == x);
                }
            }
        }
        assert(marks(on_stack@.update(v as int, false), stack)) by {
            assert forall|x: int| 0 <= x < on_stack@.len() implies #[trigger] on_stack@.update(
                v as int,
                false,
            )[x] == stack.contains(x) by {
                if x == v {
                } else if stack.contains(x) {
                    let i = choose|i: int| 0 <= i < stack.len() && stack[i] == x;
                    assert(longer[i] == x);
                } else if longer.contains(x) {
                    let i = choose|i: int| 0 <= i < longer.len() && longer[i] == x;
                    assert(stack[i] == x);
                }
            }
        }
    }
    order.push(v);
    placed.set(v, true);
    on_stack.set(v, false);
    None
}

/// Returns the packages in an order in which they can be released: each one
/// after all the packages it depends on, ties in the order given. Fails when
/// packages depend on each other in a circle.
///
/// Of several packages with one name the first stands for all of them.
pub fn release_order<'a>(packages: &'a [&'a Package]) -> (r: Result<Vec<&'a Package>, CycleError>)
    ensures
        r is Ok <==> !has_cycle(dependency_graph(package_views(packages@))),
        match release_order_indices(package_views(packages@)) {
            Ok(order) => {
                &&& r matches Ok(released)
                &&& released@.len() == order.len()
                &&& forall|i: int|
                    0 <= i < order.len() ==> 0 <= #[trigger] order[i] < packages@.len()
                        && released@[i] == packages@[order[i]]
            },
            Err((a, b)) => {
                &&& r matches Err(e)
                &&& 0 <= a < packages@.len()
                &&& 0 <= b < packages@.len()
                &&& e@ == CycleView { from: packages@[a].name@, to: packages@[b].name@ }
            },
        },
{
    let ghost views = package_views(packages@);
    let ghost g = dependency_graph(views);
    let ghost roots = release_roots(views);
    let n = packages.len();
    let adj = build_graph(packages);
    proof {
        lemma_dependency_graph(views);
        lemma_release_order(views);
    }
    let mut on_stack: Vec<bool> = Vec::new();
    let mut placed: Vec<bool> = Vec::new();
    let mut i: usize = 0;
    while i < n
        invariant
            i <= n,
            on_stack.len() == i,
            placed.len() == i,
            forall|x: int| 0 <= x < i ==> !(#[trigger] on_stack[x]),
            forall|x: int| 0 <= x < i ==> !(#[trigger] placed[x]),
        decreases n - i,
    {
        on_stack.push(false);
        placed.push(false);
        i += 1;
    }
    let mut order: Vec<usize> = Vec::new();
    let ghost empty = Seq::<int>::empty();
    assert(positions(order@) =~= empty);
    let mut k: usize = 0;
    while k < n
        invariant
            n == packages.len(),
            views == package_views(packages@),
            g == dependency_graph(views),
            g == adjacency(adj@),
            roots == release_roots(views),
            adj.len() == n,
            graph_wf(g),
            nodes_in_range(g, roots),
            k <= n,
            on_stack.len() == n,
            placed.len() == n,
            empty == Seq::<int>::empty(),
            marks(on_stack@, empty),
            marks(placed@, positions(order@)),
            valid_order(g, positions(order@)),
            nodes_in_range(g, positions(order@)),
            visit_roots(g, roots, k as int, positions(order@)) == release_order_indices(views),
            release_order_indices(views) is Ok <==> !has_cycle(g),
        decreases n - k,
    {
        let root = find_package(packages, &packages[k].name);
        assert(root as int == roots[k as int]);
        proof {
            lemma_visit(g, root as int, empty, positions(order@));
        }
        match walk(&adj, root, &mut on_stack, &mut placed, &mut order, Ghost(empty)) {
            Some((a, b)) => {
                return Err(
                    CycleError::CircularDependency {
                        from: packages[a].name.clone(),
                        to: packages[b].name.clone(),
                    },
                );
            },
            None => {},
        }
        k += 1;
    }
    let mut released: Vec<&'a Package> = Vec::new();
    let mut p: usize = 0;
    while p < order.len()
        invariant
            p <= order.len(),
            released.len() == p,
            nodes_in_range(g, positions(order@)),
            g.len() == packages@.len(),
            forall|i: int| 0 <= i < p ==> released@[i] == packages@[order@[i] as int],
        decreases order.len() - p,
    {
        assert(0 <= positions(order@)[p as int] < g.len());
        released.push(packages[order[p]]);
        p += 1;
    }
    assert(positions(order@).len() == order@.len());
    assert forall|i: int| 0 <= i < order@.len() implies 0 <= #[trigger] positions(order@)[i]
        < packages@.len() && released@[i] == packages@[positions(order@)[i]] by {}
    Ok(released)
}

} // verus!
