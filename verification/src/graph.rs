//! The package graph: resolved metadata pruned to the selected dependency kinds.

use vstd::prelude::*;
use crate::args::{opt_text, DepsArgs, TargetArgs};

verus! {

/// Why a package depends on another.
#[derive(Clone, Copy, Debug, PartialEq, Eq, Structural)]
pub enum DependencyKind {
    Normal,
    Build,
    Dev,
}

/// The set of dependency kinds that a graph keeps.
#[derive(Clone, Copy, Debug, PartialEq, Eq, Structural)]
pub struct KindFilter {
    pub normal: bool,
    pub build: bool,
    pub dev: bool,
}

impl KindFilter {
    /// Whether `kind` belongs to the filter.
    pub open spec fn admits(self, kind: DependencyKind) -> bool {
        match kind {
            DependencyKind::Normal => self.normal,
            DependencyKind::Build => self.build,
            DependencyKind::Dev => self.dev,
        }
    }

    /// Tells whether `kind` belongs to the filter.
    pub fn allows(&self, kind: DependencyKind) -> (allowed: bool)
        ensures
            allowed == self.admits(kind),
    {
        match kind {
            DependencyKind::Normal => self.normal,
            DependencyKind::Build => self.build,
            DependencyKind::Dev => self.dev,
        }
    }

    /// The filter that the dependency flags select: normal dependencies always,
    /// build and dev dependencies when asked for, singly or together.
    pub open spec fn from_deps_args_spec(args: DepsArgs) -> KindFilter {
        KindFilter {
            normal: true,
            build: args.all_deps || args.build_deps,
            dev: args.all_deps || args.dev_deps,
        }
    }

    /// Builds the filter that the dependency flags select.
    pub fn from_deps_args(args: &DepsArgs) -> (filter: KindFilter)
        ensures
            filter == Self::from_deps_args_spec(*args),
    {
        KindFilter {
            normal: true,
            build: args.all_deps || args.build_deps,
            dev: args.all_deps || args.dev_deps,
        }
    }
}

/// One edge of the graph, seen from the package it starts at: the package it
/// leads to, by index, and its kind.
#[derive(Clone, Copy, Debug, PartialEq, Eq, Structural)]
pub struct Dependency {
    pub to: usize,
    pub kind: DependencyKind,
    /// Whether the dependency counts on the selected target. A dependency that
    /// is not limited to a platform counts on every target.
    pub on_target: bool,
}

/// Which edges a graph keeps: those of the selected kinds that count on the
/// selected target, or on any target when all targets are asked for.
#[derive(Clone, Copy, Debug, PartialEq, Eq, Structural)]
pub struct Selection {
    pub kinds: KindFilter,
    pub all_targets: bool,
}

impl Selection {
    /// Whether the graph keeps `edge`.
    pub open spec fn follows(self, edge: Dependency) -> bool {
        self.kinds.admits(edge.kind) && (self.all_targets || edge.on_target)
    }

    /// Tells whether the graph keeps `edge`.
    pub fn allows(&self, edge: &Dependency) -> (allowed: bool)
        ensures
            allowed == self.follows(*edge),
    {
        self.kinds.allows(edge.kind) && (self.all_targets || edge.on_target)
    }

    /// The selection that the dependency flags and the target flags make.
    pub open spec fn from_args_spec(deps: DepsArgs, all_targets: bool) -> Selection {
        Selection { kinds: KindFilter::from_deps_args_spec(deps), all_targets }
    }

    /// Builds the selection that the dependency flags and the target flags make.
    pub fn from_args(deps: &DepsArgs, target: &TargetArgs) -> (selection: Selection)
        ensures
            selection == Self::from_args_spec(*deps, target.all_targets),
    {
        Selection { kinds: KindFilter::from_deps_args(deps), all_targets: target.all_targets }
    }
}

/// What identifies a package: name, version and where it comes from.
#[derive(Debug)]
pub struct PackageId {
    pub name: String,
    pub version: String,
    pub source: Option<String>,
}

/// Mathematical content of [`PackageId`].
pub struct PackageIdView {
    pub name: Seq<char>,
    pub version: Seq<char>,
    pub source: Option<Seq<char>>,
}

impl View for PackageId {
    type V = PackageIdView;

    open spec fn view(&self) -> PackageIdView {
        PackageIdView { name: self.name@, version: self.version@, source: opt_text(self.source) }
    }
}

/// A package of the resolved metadata.
#[derive(Debug)]
pub struct Package {
    pub id: PackageId,
    pub manifest_path: String,
    /// Directory that holds the package's sources; absent when the sources are
    /// not available locally.
    pub source_root: Option<String>,
}

/// Mathematical content of [`Package`].
pub struct PackageView {
    pub id: PackageIdView,
    pub manifest_path: Seq<char>,
    pub source_root: Option<Seq<char>>,
}

impl View for Package {
    type V = PackageView;

    open spec fn view(&self) -> PackageView {
        PackageView {
            id: self.id@,
            manifest_path: self.manifest_path@,
            source_root: opt_text(self.source_root),
        }
    }
}

/// A package together with the edges that start at it.
#[derive(Debug)]
pub struct MetadataNode {
    pub package: Package,
    pub dependencies: Vec<Dependency>,
}

/// Resolved metadata: packages and typed dependency edges. A package is known
/// by its index.
#[derive(Debug)]
pub struct Metadata {
    pub nodes: Vec<MetadataNode>,
}

/// Edges by the index of the package they start at.
pub type Links = Seq<Seq<Dependency>>;

impl Metadata {
    /// The edges of the metadata.
    pub open spec fn links(&self) -> Links {
        Seq::new(self.nodes@.len(), |i: int| self.nodes@[i].dependencies@)
    }

    /// The packages of the metadata.
    pub open spec fn packages(&self) -> Seq<PackageView> {
        Seq::new(self.nodes@.len(), |i: int| self.nodes@[i].package@)
    }
}

/// The test that `filter` keeps an edge.
pub open spec fn admitted(filter: Selection) -> spec_fn(Dependency) -> bool {
    |d: Dependency| filter.follows(d)
}

/// Whether one of the first `count` edges of `edges` leads to `to` and has kind `kind`.
pub open spec fn link_before(edges: Seq<Dependency>, count: int, to: int, kind: DependencyKind) -> bool {
    exists|j: int|
        0 <= j < count && j < edges.len() && (#[trigger] edges[j]).to == to && edges[j].kind == kind
}

/// Whether `links` holds an edge of kind `kind` from `from` to `to`.
pub open spec fn has_link(links: Links, from: int, to: int, kind: DependencyKind) -> bool {
    0 <= from < links.len() && link_before(links[from], links[from].len() as int, to, kind)
}

/// Whether an edge that `filter` keeps leads from `from` to `to`.
pub open spec fn step(links: Links, filter: Selection, from: int, to: int) -> bool {
    &&& 0 <= from < links.len()
    &&& exists|j: int|
        0 <= j < links[from].len() && (#[trigger] links[from][j]).to == to && filter.follows(
            links[from][j],
        )
}

/// Whether `target` can be reached from `root` over at most `hops` edges that
/// `filter` keeps.
pub open spec fn reaches_within(
    links: Links,
    filter: Selection,
    root: int,
    target: int,
    hops: nat,
) -> bool
    decreases hops,
{
    if hops == 0 {
        target == root
    } else {
        ||| reaches_within(links, filter, root, target, (hops - 1) as nat)
        ||| exists|mid: int|
            reaches_within(links, filter, root, mid, (hops - 1) as nat) && #[trigger] step(
                links,
                filter,
                mid,
                target,
            )
    }
}

/// Whether `target` can be reached from `root` over edges that `filter` keeps.
pub open spec fn reaches(links: Links, filter: Selection, root: int, target: int) -> bool {
    exists|hops: nat| reaches_within(links, filter, root, target, hops)
}

/// Whether every edge leads to a known package.
pub open spec fn targets_known(links: Links) -> bool {
    forall|a: int, j: int|
        0 <= a < links.len() && 0 <= j < links[a].len() ==> (#[trigger] links[a][j]).to
            < links.len()
}

/// Whether the edge `j` of package `from` is the first, in metadata order, that
/// leads to an unknown package.
pub open spec fn first_unknown(links: Links, from: int, j: int) -> bool {
    &&& 0 <= from < links.len()
    &&& 0 <= j < links[from].len()
    &&& links[from][j].to >= links.len()
    &&& forall|k: int| 0 <= k < j ==> (#[trigger] links[from][k]).to < links.len()
    &&& forall|a: int, k: int|
        0 <= a < from && 0 <= k < links[a].len() ==> (#[trigger] links[a][k]).to < links.len()
}

/// Whether the first edge, in metadata order, that leads to an unknown package
/// starts at `from` and leads to `to`.
pub open spec fn unknown_edge(links: Links, from: int, to: int) -> bool {
    exists|j: int| first_unknown(links, from, j) && (#[trigger] links[from][j]).to == to
}

/// Why no graph could be built from the metadata.
#[derive(Clone, Copy, Debug, PartialEq, Eq, Structural)]
pub enum GraphResolutionError {
    /// The root is not a package of the metadata.
    RootMissing,
    /// An edge that starts at package `from` leads to `to`, which is no package
    /// of the metadata.
    UnknownNode { from: usize, to: usize },
}

/// Whether `index` is among `order`.
pub open spec fn listed(order: Seq<usize>, index: int) -> bool {
    exists|k: int| 0 <= k < order.len() && #[trigger] order[k] == index
}

/// Mathematical content of a [`Graph`].
pub struct GraphModel {
    /// The package the graph was built from.
    pub root: usize,
    /// The packages of the graph, in the order they were discovered.
    pub order: Seq<usize>,
    /// The edges of the graph, by the package they start at.
    pub links: Links,
}

impl GraphModel {
    /// Whether package `index` is in the graph.
    pub open spec fn contains(self, index: int) -> bool {
        listed(self.order, index)
    }

    /// The packages of the graph.
    pub open spec fn nodes(self) -> Set<int> {
        Set::new(|index: int| self.contains(index))
    }

    /// The edges of the graph: start, end and kind.
    pub open spec fn edges(self) -> Set<(int, int, DependencyKind)> {
        Set::new(|e: (int, int, DependencyKind)| has_link(self.links, e.0, e.1, e.2))
    }

    /// What holds of every graph: the root is the first of its packages, no
    /// package is listed twice, and every edge joins two of its packages.
    pub open spec fn wf(self) -> bool {
        &&& self.order.len() >= 1
        &&& self.order[0] == self.root
        &&& self.order.no_duplicates()
        &&& forall|k: int| 0 <= k < self.order.len() ==> #[trigger] self.order[k] < self.links.len()
        &&& forall|a: int, j: int|
            0 <= a < self.links.len() && 0 <= j < self.links[a].len() ==> {
                &&& self.contains(a)
                &&& self.contains((#[trigger] self.links[a][j]).to as int)
            }
    }

    /// Whether `self` has the packages and root of `other`, and its edges turned round.
    pub open spec fn is_transpose_of(self, other: GraphModel) -> bool {
        &&& self.root == other.root
        &&& self.order == other.order
        &&& self.links.len() == other.links.len()
        &&& forall|a: int, b: int, kind: DependencyKind|
            has_link(self.links, a, b, kind) <==> has_link(other.links, b, a, kind)
    }

    /// Whether `self` is what is left of `links` when only the edges that
    /// `filter` keeps are followed from `root`: the packages reached, each with
    /// the kept edges that start at it, in the order of the metadata.
    pub open spec fn is_pruning_of(self, links: Links, filter: Selection, root: usize) -> bool {
        &&& self.root == root
        &&& self.links.len() == links.len()
        &&& forall|index: int| self.contains(index) <==> reaches(links, filter, root as int, index)
        &&& forall|a: int|
            0 <= a < links.len() ==> #[trigger] self.links[a] == if self.contains(a) {
                links[a].filter(admitted(filter))
            } else {
                Seq::empty()
            }
    }
}

/// Number of `true` entries.
pub open spec fn count_true(flags: Seq<bool>) -> nat
    decreases flags.len(),
{
    if flags.len() == 0 {
        0
    } else {
        count_true(flags.drop_last()) + if flags.last() {
            1nat
        } else {
            0nat
        }
    }
}

proof fn lemma_count_true_bound(flags: Seq<bool>)
    ensures
        count_true(flags) <= flags.len(),
    decreases flags.len(),
{
    if flags.len() > 0 {
        lemma_count_true_bound(flags.drop_last());
    }
}

proof fn lemma_count_true_set(flags: Seq<bool>, i: int)
    requires
        0 <= i < flags.len(),
        !flags[i],
    ensures
        count_true(flags.update(i, true)) == count_true(flags) + 1,
    decreases flags.len(),
{
    let after = flags.update(i, true);
    if i == flags.len() - 1 {
        assert(after.drop_last() =~= flags.drop_last());
    } else {
        assert(after.drop_last() =~= flags.drop_last().update(i, true));
        lemma_count_true_set(flags.drop_last(), i);
    }
}

proof fn lemma_count_true_all_false(flags: Seq<bool>)
    requires
        forall|i: int| 0 <= i < flags.len() ==> !flags[i],
    ensures
        count_true(flags) == 0,
    decreases flags.len(),
{
    if flags.len() > 0 {
        lemma_count_true_all_false(flags.drop_last());
    }
}

/// A package at the end of an admitted edge that starts at a reached package is reached.
pub proof fn lemma_reaches_step(links: Links, filter: Selection, root: int, mid: int, target: int)
    requires
        reaches(links, filter, root, mid),
        step(links, filter, mid, target),
    ensures
        reaches(links, filter, root, target),
{
    let hops = choose|hops: nat| reaches_within(links, filter, root, mid, hops);
    assert(reaches_within(links, filter, root, target, hops + 1));
}

/// A set of packages that holds the root and is closed under the admitted edges
/// holds every package that is reached.
pub proof fn lemma_closed_holds_reached(
    links: Links,
    filter: Selection,
    root: int,
    present: Seq<bool>,
    target: int,
    hops: nat,
)
    requires
        present.len() == links.len(),
        0 <= root < links.len(),
        present[root],
        targets_known(links),
        forall|a: int, j: int|
            0 <= a < links.len() && present[a] && 0 <= j < links[a].len() && filter.follows(#[trigger] links[a][j]) ==> present[links[a][j].to as int],
        reaches_within(links, filter, root, target, hops),
    ensures
        0 <= target < links.len(),
        present[target],
    decreases hops,
{
    if hops > 0 {
        if reaches_within(links, filter, root, target, (hops - 1) as nat) {
            lemma_closed_holds_reached(links, filter, root, present, target, (hops - 1) as nat);
        } else {
            let mid = choose|mid: int|
                reaches_within(links, filter, root, mid, (hops - 1) as nat) && #[trigger] step(
                    links,
                    filter,
                    mid,
                    target,
                );
            lemma_closed_holds_reached(links, filter, root, present, mid, (hops - 1) as nat);
        }
    }
}


/// Looking at one more edge finds what was found before, or that edge.
proof fn lemma_link_before_next(edges: Seq<Dependency>, j: int, to: int, kind: DependencyKind)
    requires
        0 <= j < edges.len(),
    ensures
        link_before(edges, j + 1, to, kind) <==> (link_before(edges, j, to, kind) || (edges[j].to
            == to && edges[j].kind == kind)),
{
    if link_before(edges, j + 1, to, kind) {
        let k = choose|k: int|
            0 <= k < j + 1 && k < edges.len() && (#[trigger] edges[k]).to == to && edges[k].kind
                == kind;
        if k < j {
            assert(link_before(edges, j, to, kind));
        }
    }
    if link_before(edges, j, to, kind) {
        let k = choose|k: int|
            0 <= k < j && k < edges.len() && (#[trigger] edges[k]).to == to && edges[k].kind
                == kind;
        assert(edges[k].to == to);
    }
    if edges[j].to == to && edges[j].kind == kind {
        assert(link_before(edges, j + 1, to, kind));
    }
}

/// A list with one more edge holds what it held before, and that edge.
proof fn lemma_link_push(edges: Seq<Dependency>, added: Dependency, to: int, kind: DependencyKind)
    ensures
        link_before(edges.push(added), edges.len() as int + 1, to, kind) <==> (link_before(
            edges,
            edges.len() as int,
            to,
            kind,
        ) || (added.to == to && added.kind == kind)),
{
    let longer = edges.push(added);
    lemma_link_before_next(longer, edges.len() as int, to, kind);
    if link_before(longer, edges.len() as int, to, kind) {
        let k = choose|k: int|
            0 <= k < edges.len() && k < longer.len() && (#[trigger] longer[k]).to == to
                && longer[k].kind == kind;
        assert(edges[k].to == to);
    }
    if link_before(edges, edges.len() as int, to, kind) {
        let k = choose|k: int|
            0 <= k < edges.len() && k < edges.len() && (#[trigger] edges[k]).to == to
                && edges[k].kind == kind;
        assert(longer[k].to == to);
    }
}

fn copy_indices(source: &Vec<usize>) -> (copy: Vec<usize>)
    ensures
        copy@ == source@,
{
    let mut copy: Vec<usize> = Vec::new();
    let mut i: usize = 0;
    while i < source.len()
        invariant
            i <= source.len(),
            copy@ == source@.take(i as int),
        decreases source.len() - i,
    {
        copy.push(source[i]);
        assert(copy@ =~= source@.take(i + 1));
        i = i + 1;
    }
    assert(copy@ =~= source@);
    copy
}

fn copy_flags(source: &Vec<bool>) -> (copy: Vec<bool>)
    ensures
        copy@ == source@,
{
    let mut copy: Vec<bool> = Vec::new();
    let mut i: usize = 0;
    while i < source.len()
        invariant
            i <= source.len(),
            copy@ == source@.take(i as int),
        decreases source.len() - i,
    {
        copy.push(source[i]);
        assert(copy@ =~= source@.take(i + 1));
        i = i + 1;
    }
    assert(copy@ =~= source@);
    copy
}

/// A filtered, directed package graph. Packages are known by their index in
/// the metadata the graph was built from.
pub struct Graph {
    root: usize,
    order: Vec<usize>,
    present: Vec<bool>,
    links: Vec<Vec<Dependency>>,
}

/// The edge lists of `links` as sequences.
pub open spec fn links_view(links: Seq<Vec<Dependency>>) -> Links {
    Seq::new(links.len(), |i: int| links[i]@)
}

impl View for Graph {
    type V = GraphModel;

    closed spec fn view(&self) -> GraphModel {
        GraphModel { root: self.root, order: self.order@, links: links_view(self.links@) }
    }
}

impl Graph {
    #[verifier::type_invariant]
    spec fn valid(&self) -> bool {
        &&& self@.wf()
        &&& self.present@.len() == self.links@.len()
        &&& forall|i: int|
            0 <= i < self.present@.len() ==> (#[trigger] self.present@[i] <==> listed(
                self.order@,
                i,
            ))
    }

    /// The package the graph was built from.
    pub fn root(&self) -> (root: usize)
        ensures
            root == self@.root,
            self@.wf(),
    {
        proof {
            use_type_invariant(self);
        }
        self.root
    }

    /// The packages of the graph, in the order they were discovered; the root is first.
    pub fn nodes(&self) -> (nodes: &Vec<usize>)
        ensures
            nodes@ == self@.order,
            self@.wf(),
    {
        proof {
            use_type_invariant(self);
        }
        &self.order
    }

    /// Number of packages of the metadata the graph was built from.
    pub fn size(&self) -> (size: usize)
        ensures
            size == self@.links.len(),
            self@.wf(),
    {
        proof {
            use_type_invariant(self);
        }
        self.links.len()
    }

    /// Tells whether package `index` is in the graph.
    pub fn contains(&self, index: usize) -> (found: bool)
        ensures
            found == self@.contains(index as int),
            self@.wf(),
    {
        proof {
            use_type_invariant(self);
        }
        if index < self.present.len() {
            self.present[index]
        } else {
            false
        }
    }

    /// The edges that start at package `index`.
    pub fn dependencies(&self, index: usize) -> (deps: &Vec<Dependency>)
        requires
            index < self@.links.len(),
        ensures
            deps@ == self@.links[index as int],
            self@.wf(),
    {
        proof {
            use_type_invariant(self);
        }
        &self.links[index]
    }

    /// The graph with every edge turned round: an edge from a package to one it
    /// depends on becomes an edge from that one to the package. The graph itself
    /// is left as it is.
    pub fn inverted(&self) -> (out: Graph)
        ensures
            out@.is_transpose_of(self@),
            out@.wf(),
            self@.wf(),
    {
        proof {
            use_type_invariant(self);
        }
        let n = self.links.len();
        let ghost forward = links_view(self.links@);
        let mut links: Vec<Vec<Dependency>> = Vec::new();
        let mut i: usize = 0;
        while i < n
            invariant
                i <= n,
                links.len() == i,
                forall|k: int| 0 <= k < i ==> (#[trigger] links[k])@ == Seq::<Dependency>::empty(),
            decreases n - i,
        {
            links.push(Vec::new());
            i = i + 1;
        }
        let mut a: usize = 0;
        while a < n
            invariant
                self@.wf(),
                forward == links_view(self.links@),
                n == self.links.len(),
                links.len() == n,
                a <= n,
                forall|x: int, y: int, kind: DependencyKind|
                    #[trigger] has_link(links_view(links@), x, y, kind) <==> (0 <= y < a
                        && has_link(forward, y, x, kind)),
            decreases n - a,
        {
            let deps = &self.links[a];
            let mut j: usize = 0;
            while j < deps.len()
                invariant
                    self@.wf(),
                    forward == links_view(self.links@),
                    n == self.links.len(),
                    links.len() == n,
                    a < n,
                    deps@ == forward[a as int],
                    j <= deps.len(),
                    forall|x: int, y: int, kind: DependencyKind|
                        #[trigger] has_link(links_view(links@), x, y, kind) <==> ((0 <= y < a
                            && has_link(forward, y, x, kind)) || (y == a && link_before(
                            forward[a as int],
                            j as int,
                            x,
                            kind,
                        ))),
                decreases deps.len() - j,
            {
                let dep = deps[j];
                let ghost before = links_view(links@);
                assert(dep.to < n) by {
                    assert(forward[a as int][j as int] == dep);
                    assert(self@.contains(dep.to as int));
                }
                let back = Dependency { to: a, kind: dep.kind, on_target: dep.on_target };
                links[dep.to].push(back);
                proof {
                    let after = links_view(links@);
                    assert(after[dep.to as int] =~= before[dep.to as int].push(back));
                    assert forall|x: int, y: int, kind: DependencyKind|
                        #[trigger] has_link(after, x, y, kind) <==> ((0 <= y < a && has_link(
                            forward,
                            y,
                            x,
                            kind,
                        )) || (y == a && link_before(forward[a as int], j + 1, x, kind))) by {
                        lemma_link_before_next(forward[a as int], j as int, x, kind);
                        if 0 <= x < n {
                            if x == dep.to {
                                lemma_link_push(before[x], back, y, kind);
                            } else {
                                assert(after[x] == before[x]);
                            }
                        }
                        assert(has_link(before, x, y, kind) <==> ((0 <= y < a && has_link(
                            forward,
                            y,
                            x,
                            kind,
                        )) || (y == a && link_before(forward[a as int], j as int, x, kind))));
                    }
                }
                j = j + 1;
            }
            a = a + 1;
        }
        let order = copy_indices(&self.order);
        let present = copy_flags(&self.present);
        proof {
            let model = GraphModel { root: self.root, order: order@, links: links_view(links@) };
            assert(model.is_transpose_of(self@));
            assert forall|x: int, j: int|
                0 <= x < model.links.len() && 0 <= j < model.links[x].len() implies {
                &&& model.contains(x)
                &&& model.contains((#[trigger] model.links[x][j]).to as int)
            } by {
                let d = model.links[x][j];
                assert(has_link(model.links, x, d.to as int, d.kind));
                assert(has_link(forward, d.to as int, x, d.kind));
                let k = choose|k: int|
                    0 <= k < forward[d.to as int].len() && (#[trigger] forward[d.to as int][k]).to
                        == x && forward[d.to as int][k].kind == d.kind;
                assert(self@.contains(forward[d.to as int][k].to as int));
            }
            assert(model.wf());
        }
        Graph { root: self.root, order, present, links }
    }

    /// Builds the graph of the packages that `root` reaches over the edges that
    /// `filter` keeps: those of the selected kinds that count on the target.
    ///
    /// The other edges are left out, so a package that only such an edge
    /// leads to is not in the graph. Fails when `root` is no package of the
    /// metadata, and when some edge of the metadata leads to an unknown
    /// package; the first such edge is reported.
    pub fn build(metadata: &Metadata, root: usize, filter: Selection) -> (result: Result<
        Graph,
        GraphResolutionError,
    >)
        ensures
            root >= metadata.links().len() ==> result == Err::<Graph, GraphResolutionError>(
                GraphResolutionError::RootMissing,
            ),
            root < metadata.links().len() && !targets_known(metadata.links()) ==> (result matches Err(
                GraphResolutionError::UnknownNode { from, to },
            ) && unknown_edge(metadata.links(), from as int, to as int)),
            root < metadata.links().len() && targets_known(metadata.links()) ==> (result matches Ok(
                graph,
            ) && graph@.wf() && graph@.is_pruning_of(metadata.links(), filter, root)),
    {
        let n = metadata.nodes.len();
        let ghost ml = metadata.links();
        if root >= n {
            return Err(GraphResolutionError::RootMissing);
        }
        let mut a: usize = 0;
        while a < n
            invariant
                n == metadata.nodes.len(),
                ml == metadata.links(),
                root < n,
                a <= n,
                forall|b: int, k: int|
                    0 <= b < a && 0 <= k < ml[b].len() ==> (#[trigger] ml[b][k]).to < n,
            decreases n - a,
        {
            let deps = &metadata.nodes[a].dependencies;
            let mut j: usize = 0;
            while j < deps.len()
                invariant
                    n == metadata.nodes.len(),
                    ml == metadata.links(),
                    root < n,
                    a < n,
                    deps@ == ml[a as int],
                    j <= deps.len(),
                    forall|k: int| 0 <= k < j ==> (#[trigger] ml[a as int][k]).to < n,
                    forall|b: int, k: int|
                        0 <= b < a && 0 <= k < ml[b].len() ==> (#[trigger] ml[b][k]).to < n,
                decreases deps.len() - j,
            {
                let to = deps[j].to;
                if to >= n {
                    proof {
                        assert(first_unknown(ml, a as int, j as int));
                        assert(ml[a as int][j as int].to == to);
                        assert(unknown_edge(ml, a as int, to as int));
                        assert(!targets_known(ml));
                    }
                    return Err(GraphResolutionError::UnknownNode { from: a, to });
                }
                j = j + 1;
            }
            a = a + 1;
        }
        assert(targets_known(ml));
        let mut present: Vec<bool> = Vec::new();
        let mut links: Vec<Vec<Dependency>> = Vec::new();
        let mut i: usize = 0;
        while i < n
            invariant
                i <= n,
                present.len() == i,
                links.len() == i,
                forall|k: int| 0 <= k < i ==> !present[k],
                forall|k: int| 0 <= k < i ==> (#[trigger] links[k])@ == Seq::<Dependency>::empty(),
            decreases n - i,
        {
            present.push(false);
            links.push(Vec::new());
            i = i + 1;
        }
        let mut order: Vec<usize> = Vec::new();
        proof {
            lemma_count_true_all_false(present@);
            lemma_count_true_set(present@, root as int);
            assert(reaches_within(ml, filter, root as int, root as int, 0));
        }
        order.push(root);
        present.set(root, true);
        let mut head: usize = 0;
        proof {
            assert(order@[0] == root);
            assert forall|i: int| 0 <= i < n implies (#[trigger] present[i] <==> listed(
                order@,
                i,
            )) by {
                if listed(order@, i) {
                    let k = choose|k: int| 0 <= k < order@.len() && #[trigger] order@[k] == i;
                    assert(k == 0);
                }
            }
        }
        while head < order.len()
            invariant
                n == metadata.nodes.len(),
                ml == metadata.links(),
                root < n,
                targets_known(ml),
                present.len() == n,
                links.len() == n,
                head <= order.len(),
                order.len() == count_true(present@),
                order.len() >= 1,
                order[0] == root,
                order@.no_duplicates(),
                forall|k: int| 0 <= k < order.len() ==> #[trigger] order[k] < n,
                forall|i: int| 0 <= i < n ==> (#[trigger] present[i] <==> listed(order@, i)),
                forall|k: int|
                    0 <= k < order.len() ==> reaches(
                        ml,
                        filter,
                        root as int,
                        #[trigger] order[k] as int,
                    ),
                forall|g: int, j: int|
                    0 <= g < head && 0 <= j < ml[order[g] as int].len() && filter.follows(#[trigger] ml[order[g] as int][j]) ==> present[ml[order[g] as int][j].to as int],
                forall|a: int|
                    0 <= a < n ==> (#[trigger] links[a])@ == if listed(order@.take(head as int), a) {
                        ml[a].filter(admitted(filter))
                    } else {
                        Seq::empty()
                    },
            decreases n - head,
        {
            proof {
                lemma_count_true_bound(present@);
            }
            let u = order[head];
            let deps = &metadata.nodes[u].dependencies;
            let mut kept: Vec<Dependency> = Vec::new();
            let mut j: usize = 0;
            assert(ml[u as int].take(0) =~= Seq::empty());
            proof {
                reveal(Seq::filter);
            }
            while j < deps.len()
                invariant
                    n == metadata.nodes.len(),
                    ml == metadata.links(),
                    root < n,
                    targets_known(ml),
                    present.len() == n,
                    links.len() == n,
                    head < order.len(),
                    u == order[head as int],
                    u < n,
                    deps@ == ml[u as int],
                    j <= deps.len(),
                    kept@ == ml[u as int].take(j as int).filter(admitted(filter)),
                    order.len() == count_true(present@),
                    order.len() >= 1,
                    order[0] == root,
                    order@.no_duplicates(),
                    forall|k: int| 0 <= k < order.len() ==> #[trigger] order[k] < n,
                    forall|i: int| 0 <= i < n ==> (#[trigger] present[i] <==> listed(order@, i)),
                    forall|k: int|
                        0 <= k < order.len() ==> reaches(
                            ml,
                            filter,
                            root as int,
                            #[trigger] order[k] as int,
                        ),
                    forall|g: int, j: int|
                        0 <= g < head && 0 <= j < ml[order[g] as int].len() && filter.follows(#[trigger] ml[order[g] as int][j]) ==> present[ml[order[g] as int][j].to as int],
                    forall|k: int|
                        0 <= k < j && filter.follows(#[trigger] ml[u as int][k])
                            ==> present[ml[u as int][k].to as int],
                    forall|a: int|
                        0 <= a < n ==> (#[trigger] links[a])@ == if listed(
                            order@.take(head as int),
                            a,
                        ) {
                            ml[a].filter(admitted(filter))
                        } else {
                            Seq::empty()
                        },
                decreases deps.len() - j,
            {
                let dep = deps[j];
                proof {
                    let before = ml[u as int].take(j as int);
                    assert(ml[u as int].take(j + 1) =~= before.push(dep));
                    before.lemma_filter_push(dep, admitted(filter));
                }
                if filter.allows(&dep) {
                    kept.push(dep);
                    if !present[dep.to] {
                        proof {
                            lemma_count_true_set(present@, dep.to as int);
                            assert(step(ml, filter, u as int, dep.to as int));
                            lemma_reaches_step(ml, filter, root as int, u as int, dep.to as int);
                        }
                        let ghost old_order = order@;
                        order.push(dep.to);
                        present.set(dep.to, true);
                        proof {
                            assert(order@.take(head as int) =~= old_order.take(head as int));
                            assert forall|i: int| 0 <= i < n implies (#[trigger] present[i]
                                <==> listed(order@, i)) by {
                                if listed(old_order, i) {
                                    let k = choose|k: int|
                                        0 <= k < old_order.len() && old_order[k] == i;
                                    assert(order@[k] == i);
                                }
                                if i == dep.to {
                                    assert(order@[old_order.len() as int] == i);
                                }
                            }
                            assert forall|k: int| 0 <= k < order.len() implies reaches(
                                ml,
                                filter,
                                root as int,
                                #[trigger] order[k] as int,
                            ) by {
                                if k < old_order.len() {
                                    assert(order[k] == old_order[k]);
                                }
                            }
                        }
                    }
                }
                j = j + 1;
            }
            assert(ml[u as int].take(j as int) =~= ml[u as int]);
            let ghost old_links = links@;
            links.set(u, kept);
            proof {
                let prev = order@.take(head as int);
                let next = order@.take(head + 1);
                assert(listed(next, u as int)) by {
                    assert(next[head as int] == u);
                }
                assert forall|a: int| 0 <= a < n implies (#[trigger] links[a])@ == if listed(
                    next,
                    a,
                ) {
                    ml[a].filter(admitted(filter))
                } else {
                    Seq::empty()
                } by {
                    if a != u {
                        assert(links[a] == old_links[a]);
                        if listed(prev, a) {
                            let k = choose|k: int| 0 <= k < prev.len() && #[trigger] prev[k] == a;
                            assert(next[k] == a);
                        }
                        if listed(next, a) {
                            let k = choose|k: int| 0 <= k < next.len() && #[trigger] next[k] == a;
                            assert(prev[k] == a);
                        }
                    }
                }
            }
            head = head + 1;
        }
        proof {
            assert(order@.take(head as int) =~= order@);
            let model = GraphModel { root, order: order@, links: links_view(links@) };
            assert forall|a: int, j: int|
                0 <= a < model.links.len() && 0 <= j < model.links[a].len() implies {
                &&& model.contains(a)
                &&& model.contains((#[trigger] model.links[a][j]).to as int)
            } by {
                let d = model.links[a][j];
                assert(listed(order@, a));
                let g = choose|g: int| 0 <= g < order.len() && order[g] == a;
                let kept = ml[a].filter(admitted(filter));
                assert(kept.contains(d));
                ml[a].lemma_filter_contains_rev(admitted(filter), d);
                ml[a].lemma_filter_pred(admitted(filter), j);
                let k = choose|k: int| 0 <= k < ml[a].len() && ml[a][k] == d;
                assert(filter.follows(ml[order[g] as int][k]));
                assert(present[d.to as int]);
            }
            assert forall|index: int| reaches(ml, filter, root as int, index) implies listed(
                order@,
                index,
            ) by {
                let hops = choose|hops: nat| reaches_within(ml, filter, root as int, index, hops);
                assert forall|a: int, j: int|
                    0 <= a < ml.len() && present@[a] && 0 <= j < ml[a].len() && filter.follows(#[trigger] ml[a][j]) implies present@[ml[a][j].to as int] by {
                    let g = choose|g: int| 0 <= g < order.len() && order[g] == a;
                    assert(filter.follows(ml[order[g] as int][j]));
                }
                assert(listed(order@, root as int));
                lemma_closed_holds_reached(ml, filter, root as int, present@, index, hops);
            }
            assert(model.is_pruning_of(ml, filter, root));
            assert(model.wf());
        }
        Ok(Graph { root, order, present, links })
    }
}

/// Pruning keeps only edges of the selected kinds: an edge of a pruned graph
/// has a kind of the filter, is an edge of the metadata, and starts at a
/// package of the graph.
pub proof fn lemma_pruned_edges_admitted(
    graph: GraphModel,
    links: Links,
    filter: Selection,
    root: usize,
    from: int,
    to: int,
    kind: DependencyKind,
)
    requires
        graph.is_pruning_of(links, filter, root),
        has_link(graph.links, from, to, kind),
    ensures
        filter.kinds.admits(kind),
        has_link(links, from, to, kind),
        graph.contains(from),
{
    let kept = graph.links[from];
    let j = choose|j: int|
        0 <= j < kept.len() && j < kept.len() && (#[trigger] kept[j]).to == to && kept[j].kind
            == kind;
    if graph.contains(from) {
        assert(kept == links[from].filter(admitted(filter)));
        links[from].lemma_filter_pred(admitted(filter), j);
        assert(kept.contains(kept[j]));
        links[from].lemma_filter_contains_rev(admitted(filter), kept[j]);
        let k = choose|k: int| 0 <= k < links[from].len() && links[from][k] == kept[j];
        assert(links[from][k].to == to);
    } else {
        assert(kept.len() == 0);
    }
}

/// Pruning keeps every edge of the selected kinds that starts at a package of
/// the graph and counts on the target.
pub proof fn lemma_admitted_edges_kept(
    graph: GraphModel,
    links: Links,
    filter: Selection,
    root: usize,
    from: int,
    j: int,
)
    requires
        graph.is_pruning_of(links, filter, root),
        graph.contains(from),
        0 <= from < links.len(),
        0 <= j < links[from].len(),
        filter.follows(links[from][j]),
    ensures
        has_link(graph.links, from, links[from][j].to as int, links[from][j].kind),
{
    let to = links[from][j].to;
    links[from].lemma_filter_contains(admitted(filter), j);
    let kept = graph.links[from];
    let k = choose|k: int| 0 <= k < kept.len() && kept[k] == links[from][j];
    assert(kept[k].to == to);
    assert(link_before(kept, kept.len() as int, to as int, links[from][j].kind));
}

/// A package other than the root that is reached has an admitted edge leading
/// to it from a package that is reached.
pub proof fn lemma_reached_has_entry(
    links: Links,
    filter: Selection,
    root: int,
    target: int,
    hops: nat,
)
    requires
        reaches_within(links, filter, root, target, hops),
        target != root,
    ensures
        exists|mid: int| reaches(links, filter, root, mid) && #[trigger] step(links, filter, mid, target),
    decreases hops,
{
    if hops > 0 {
        if reaches_within(links, filter, root, target, (hops - 1) as nat) {
            lemma_reached_has_entry(links, filter, root, target, (hops - 1) as nat);
        } else {
            let mid = choose|mid: int|
                reaches_within(links, filter, root, mid, (hops - 1) as nat) && #[trigger] step(
                    links,
                    filter,
                    mid,
                    target,
                );
            assert(reaches(links, filter, root, mid));
        }
    }
}

/// A package that only edges of excluded kinds lead to is absent from the
/// pruned graph: when no edge of a selected kind leads to `index` from a package
/// of the graph, and `index` is not the root, the graph does not hold it.
pub proof fn lemma_excluded_only_absent(
    graph: GraphModel,
    links: Links,
    filter: Selection,
    root: usize,
    index: int,
)
    requires
        graph.is_pruning_of(links, filter, root),
        index != root,
        forall|from: int, kind: DependencyKind|
            graph.contains(from) && #[trigger] has_link(links, from, index, kind)
                ==> !filter.kinds.admits(kind),
    ensures
        !graph.contains(index),
{
    if graph.contains(index) {
        let hops = choose|hops: nat| reaches_within(links, filter, root as int, index, hops);
        lemma_reached_has_entry(links, filter, root as int, index, hops);
        let mid = choose|mid: int|
            reaches(links, filter, root as int, mid) && #[trigger] step(links, filter, mid, index);
        let j = choose|j: int|
            0 <= j < links[mid].len() && (#[trigger] links[mid][j]).to == index && filter.follows(
                links[mid][j],
            );
        assert(has_link(links, mid, index, links[mid][j].kind));
        assert(graph.contains(mid));
    }
}

/// Turning the edges of a graph round twice gives back its edges, its packages
/// and its root.
pub proof fn lemma_invert_twice(graph: GraphModel, once: GraphModel, twice: GraphModel)
    requires
        once.is_transpose_of(graph),
        twice.is_transpose_of(once),
    ensures
        twice.edges() == graph.edges(),
        twice.nodes() == graph.nodes(),
        twice.order == graph.order,
        twice.root == graph.root,
{
    assert forall|e: (int, int, DependencyKind)| twice.edges().contains(e) <==> graph.edges().contains(
        e,
    ) by {
        assert(has_link(twice.links, e.0, e.1, e.2) <==> has_link(once.links, e.1, e.0, e.2));
        assert(has_link(once.links, e.1, e.0, e.2) <==> has_link(graph.links, e.0, e.1, e.2));
    }
    assert(twice.edges() =~= graph.edges());
    assert(twice.nodes() =~= graph.nodes());
}

} // verus!
