use cargo_geiger::args::DepsArgs;
use cargo_geiger::args::TargetArgs;
use cargo_geiger::graph::{
    Dependency, DependencyKind, Graph, GraphResolutionError, KindFilter, Metadata, MetadataNode,
    Package, PackageId, Selection,
};

fn package(name: &str) -> Package {
    Package {
        id: PackageId {
            name: name.to_string(),
            version: String::from("1.0.0"),
            source: None,
        },
        manifest_path: format!("/work/{}/Cargo.toml", name),
        source_root: Some(format!("/work/{}", name)),
    }
}

fn metadata(edges: &[&[(usize, DependencyKind)]]) -> Metadata {
    let mut nodes = Vec::new();
    for (index, deps) in edges.iter().enumerate() {
        nodes.push(MetadataNode {
            package: package(&format!("p{}", index)),
            dependencies: deps.iter().map(|(to, kind)| Dependency { to: *to, kind: *kind, on_target: true }).collect(),
        });
    }
    Metadata { nodes }
}

fn kinds(normal: bool, build: bool, dev: bool) -> Selection {
    Selection { kinds: KindFilter { normal, build, dev }, all_targets: false }
}

fn normal_only() -> Selection {
    kinds(true, false, false)
}

fn everything() -> Selection {
    kinds(true, true, true)
}

fn edges_of(graph: &Graph) -> Vec<(usize, usize, DependencyKind)> {
    let mut edges = Vec::new();
    for from in 0..graph.size() {
        for dep in graph.dependencies(from) {
            edges.push((from, dep.to, dep.kind));
        }
    }
    edges.sort_by_key(|(from, to, kind)| (*from, *to, format!("{:?}", kind)));
    edges
}

#[test]
fn dev_only_dependency_is_pruned() {
    // The root depends on package 1 only through a dev edge.
    let metadata = metadata(&[&[(1, DependencyKind::Dev)], &[]]);
    let graph = Graph::build(&metadata, 0, normal_only()).unwrap();
    assert_eq!(graph.nodes(), &vec![0]);
    assert!(graph.contains(0));
    assert!(!graph.contains(1));
    assert!(graph.dependencies(0).is_empty());
    assert_eq!(graph.root(), 0);
    assert_eq!(graph.size(), 2);
}

#[test]
fn dev_dependency_is_kept_when_selected() {
    let metadata = metadata(&[&[(1, DependencyKind::Dev)], &[]]);
    let graph = Graph::build(&metadata, 0, kinds(true, false, true)).unwrap();
    assert_eq!(graph.nodes(), &vec![0, 1]);
    assert_eq!(graph.dependencies(0), &vec![Dependency { to: 1, kind: DependencyKind::Dev, on_target: true }]);
}

#[test]
fn retained_edges_have_selected_kinds() {
    let metadata = metadata(&[
        &[(1, DependencyKind::Normal), (2, DependencyKind::Build), (3, DependencyKind::Dev)],
        &[(3, DependencyKind::Normal), (2, DependencyKind::Dev)],
        &[(4, DependencyKind::Normal)],
        &[],
        &[],
    ]);
    let filter = kinds(true, true, false);
    let graph = Graph::build(&metadata, 0, filter).unwrap();
    for (_, _, kind) in edges_of(&graph) {
        assert!(filter.kinds.allows(kind));
    }
    assert_eq!(graph.nodes(), &vec![0, 1, 2, 3, 4]);
    assert_eq!(
        edges_of(&graph),
        vec![
            (0, 1, DependencyKind::Normal),
            (0, 2, DependencyKind::Build),
            (1, 3, DependencyKind::Normal),
            (2, 4, DependencyKind::Normal),
        ]
    );
}

#[test]
fn package_behind_excluded_edge_is_absent() {
    // 2 is reached only through the build edge 1 -> 2, and 3 only through 2.
    let metadata = metadata(&[
        &[(1, DependencyKind::Normal)],
        &[(2, DependencyKind::Build)],
        &[(3, DependencyKind::Normal)],
        &[],
    ]);
    let graph = Graph::build(&metadata, 0, normal_only()).unwrap();
    assert_eq!(graph.nodes(), &vec![0, 1]);
    assert!(!graph.contains(2));
    assert!(!graph.contains(3));
    assert!(graph.dependencies(2).is_empty());
}

#[test]
fn edges_of_unreached_packages_are_left_out() {
    let metadata = metadata(&[&[], &[(0, DependencyKind::Normal)]]);
    let graph = Graph::build(&metadata, 0, everything()).unwrap();
    assert_eq!(graph.nodes(), &vec![0]);
    assert!(edges_of(&graph).is_empty());
}

#[test]
fn discovery_order_is_breadth_first() {
    let metadata = metadata(&[
        &[(2, DependencyKind::Normal), (1, DependencyKind::Normal)],
        &[(3, DependencyKind::Normal)],
        &[(4, DependencyKind::Normal), (1, DependencyKind::Normal)],
        &[],
        &[],
    ]);
    let graph = Graph::build(&metadata, 0, normal_only()).unwrap();
    assert_eq!(graph.nodes(), &vec![0, 2, 1, 4, 3]);
}

#[test]
fn root_may_be_any_package() {
    let metadata = metadata(&[&[(1, DependencyKind::Normal)], &[(2, DependencyKind::Normal)], &[]]);
    let graph = Graph::build(&metadata, 1, normal_only()).unwrap();
    assert_eq!(graph.root(), 1);
    assert_eq!(graph.nodes(), &vec![1, 2]);
    assert!(!graph.contains(0));
    assert!(!graph.contains(7));
}

#[test]
fn missing_root_is_an_error() {
    let metadata = metadata(&[&[], &[]]);
    assert_eq!(
        Graph::build(&metadata, 2, everything()).err(),
        Some(GraphResolutionError::RootMissing)
    );
    let empty = Metadata { nodes: vec![] };
    assert_eq!(
        Graph::build(&empty, 0, everything()).err(),
        Some(GraphResolutionError::RootMissing)
    );
}

#[test]
fn unknown_node_is_an_error() {
    let metadata = metadata(&[
        &[(1, DependencyKind::Normal)],
        &[(0, DependencyKind::Normal), (5, DependencyKind::Dev), (9, DependencyKind::Normal)],
        &[(7, DependencyKind::Normal)],
    ]);
    // The edge is reported although its kind is not selected.
    assert_eq!(
        Graph::build(&metadata, 0, normal_only()).err(),
        Some(GraphResolutionError::UnknownNode { from: 1, to: 5 })
    );
}

#[test]
fn missing_root_is_reported_before_unknown_node() {
    let metadata = metadata(&[&[(3, DependencyKind::Normal)]]);
    assert_eq!(
        Graph::build(&metadata, 1, everything()).err(),
        Some(GraphResolutionError::RootMissing)
    );
}

#[test]
fn cycles_end() {
    let metadata = metadata(&[&[(1, DependencyKind::Normal)], &[(0, DependencyKind::Normal)]]);
    let graph = Graph::build(&metadata, 0, normal_only()).unwrap();
    assert_eq!(graph.nodes(), &vec![0, 1]);
}

#[test]
fn inversion_turns_edges_round() {
    let metadata = metadata(&[
        &[(1, DependencyKind::Normal), (2, DependencyKind::Build)],
        &[(2, DependencyKind::Normal)],
        &[],
    ]);
    let graph = Graph::build(&metadata, 0, everything()).unwrap();
    let inverted = graph.inverted();
    assert_eq!(
        edges_of(&inverted),
        vec![
            (1, 0, DependencyKind::Normal),
            (2, 0, DependencyKind::Build),
            (2, 1, DependencyKind::Normal),
        ]
    );
    assert_eq!(inverted.root(), 0);
    assert_eq!(inverted.nodes(), graph.nodes());
    // The graph itself is unchanged.
    assert_eq!(
        edges_of(&graph),
        vec![
            (0, 1, DependencyKind::Normal),
            (0, 2, DependencyKind::Build),
            (1, 2, DependencyKind::Normal),
        ]
    );
}

#[test]
fn inverting_twice_gives_the_edges_back() {
    let metadata = metadata(&[
        &[(1, DependencyKind::Normal), (2, DependencyKind::Dev), (1, DependencyKind::Build)],
        &[(2, DependencyKind::Normal), (3, DependencyKind::Normal)],
        &[(3, DependencyKind::Build)],
        &[(0, DependencyKind::Dev)],
    ]);
    let graph = Graph::build(&metadata, 0, everything()).unwrap();
    let twice = graph.inverted().inverted();
    assert_eq!(edges_of(&twice), edges_of(&graph));
    assert_eq!(twice.nodes(), graph.nodes());
    assert_eq!(twice.root(), graph.root());
    for index in 0..5 {
        assert_eq!(twice.contains(index), graph.contains(index));
    }
}

#[test]
fn edges_off_the_target_are_pruned() {
    let mut metadata = metadata(&[
        &[(1, DependencyKind::Normal), (2, DependencyKind::Normal)],
        &[],
        &[(3, DependencyKind::Normal)],
        &[],
    ]);
    metadata.nodes[0].dependencies[1].on_target = false;
    let graph = Graph::build(&metadata, 0, everything()).unwrap();
    assert_eq!(graph.nodes(), &vec![0, 1]);
    assert_eq!(edges_of(&graph), vec![(0, 1, DependencyKind::Normal)]);
    let all_targets = Selection { all_targets: true, ..everything() };
    let graph = Graph::build(&metadata, 0, all_targets).unwrap();
    assert_eq!(graph.nodes(), &vec![0, 1, 2, 3]);
    assert!(!graph.inverted().dependencies(2)[0].on_target);
}

#[test]
fn selection_from_flags() {
    let deps = DepsArgs { all_deps: false, build_deps: true, dev_deps: false };
    let host = TargetArgs { all_targets: false, target: None };
    let all = TargetArgs { all_targets: true, target: Some(String::from("wasm32-wasip1")) };
    let kinds = KindFilter { normal: true, build: true, dev: false };
    assert_eq!(Selection::from_args(&deps, &host), Selection { kinds, all_targets: false });
    assert_eq!(Selection::from_args(&deps, &all), Selection { kinds, all_targets: true });
    let edge = Dependency { to: 0, kind: DependencyKind::Build, on_target: false };
    assert!(!Selection::from_args(&deps, &host).allows(&edge));
    assert!(Selection::from_args(&deps, &all).allows(&edge));
    let dev = Dependency { to: 0, kind: DependencyKind::Dev, on_target: true };
    assert!(!Selection::from_args(&deps, &all).allows(&dev));
}

#[test]
fn kind_filter_from_flags() {
    let none = DepsArgs { all_deps: false, build_deps: false, dev_deps: false };
    assert_eq!(KindFilter::from_deps_args(&none), normal_only().kinds);
    let build = DepsArgs { all_deps: false, build_deps: true, dev_deps: false };
    assert_eq!(
        KindFilter::from_deps_args(&build),
        KindFilter { normal: true, build: true, dev: false }
    );
    let dev = DepsArgs { all_deps: false, build_deps: false, dev_deps: true };
    assert_eq!(KindFilter::from_deps_args(&dev), KindFilter { normal: true, build: false, dev: true });
    let both = DepsArgs { all_deps: false, build_deps: true, dev_deps: true };
    assert_eq!(KindFilter::from_deps_args(&both), everything().kinds);
    let all = DepsArgs { all_deps: true, build_deps: false, dev_deps: false };
    assert_eq!(KindFilter::from_deps_args(&all), everything().kinds);
}

#[test]
fn kind_filter_allows() {
    let filter = KindFilter { normal: false, build: true, dev: false };
    assert!(!filter.allows(DependencyKind::Normal));
    assert!(filter.allows(DependencyKind::Build));
    assert!(!filter.allows(DependencyKind::Dev));
}
