use cargo_geiger::aggregate::package_metrics;
use cargo_geiger::args::OutputFormat;
use cargo_geiger::full_scan::{
    BuildResolutionError, FullScan, FullScanAction, FullScanEvent,
};
use cargo_geiger::graph::{
    Dependency, DependencyKind, Graph, KindFilter, Metadata, MetadataNode, Package, PackageId,
    Selection,
};
use cargo_geiger::metrics::{Count, CounterBlock};
use cargo_geiger::report::{
    list_files_used_but_not_scanned, scan_forbid_to_report, scan_forbid_unsafe, scan_to_report,
    scan_unsafe, unsafe_stats, CompiledFileSet, QuickReportEntry, Ratio, Rendering, UnsafeInfo,
};
use cargo_geiger::scan::{ScanContext, SourceFileMetrics};

fn node(name: &str, source_root: Option<&str>, deps: &[(usize, DependencyKind)]) -> MetadataNode {
    MetadataNode {
        package: Package {
            id: PackageId {
                name: name.to_string(),
                version: String::from("0.1.0"),
                source: None,
            },
            manifest_path: format!("/work/{}/Cargo.toml", name),
            source_root: source_root.map(|root| root.to_string()),
        },
        dependencies: deps.iter().map(|(to, kind)| Dependency { to: *to, kind: *kind, on_target: true }).collect(),
    }
}

fn exprs(safe: u64, unsafe_: u64) -> CounterBlock {
    let mut block = CounterBlock::new();
    block.exprs = Count { safe, unsafe_ };
    block
}

fn context(files: &[(&str, CounterBlock, bool)]) -> ScanContext {
    let mut context = ScanContext::new();
    for (path, counters, forbids_escape) in files {
        context.record(SourceFileMetrics {
            path: path.to_string(),
            counters: *counters,
            forbids_escape: *forbids_escape,
        });
    }
    context
}

fn compiled(paths: &[&str]) -> CompiledFileSet {
    CompiledFileSet { paths: paths.iter().map(|p| p.to_string()).collect() }
}

fn all_kinds() -> Selection {
    Selection { kinds: KindFilter { normal: true, build: true, dev: true }, all_targets: false }
}

/// Root `app` depends on `lib` and on `remote`, which has no local sources.
fn three_packages() -> Metadata {
    Metadata {
        nodes: vec![
            node("app", Some("/work/app"), &[(1, DependencyKind::Normal), (2, DependencyKind::Normal)]),
            node("lib", Some("/work/app/vendor/lib"), &[]),
            node("remote", None, &[]),
        ],
    }
}

#[test]
fn files_go_to_the_longest_source_root() {
    let metadata = three_packages();
    let graph = Graph::build(&metadata, 0, all_kinds()).unwrap();
    let context = context(&[
        ("/work/app/src/main.rs", exprs(1, 0), false),
        ("/work/app/vendor/lib/src/lib.rs", exprs(2, 3), true),
        ("/work/app/vendor/libx/src/lib.rs", exprs(10, 0), false),
        ("/elsewhere/x.rs", exprs(100, 100), false),
        ("/work/app/vendor/lib/src/inner.rs", exprs(4, 5), true),
    ]);
    let entries = package_metrics(&metadata, &graph, &context);
    assert_eq!(entries.len(), 3);
    assert_eq!(entries[0].package, 0);
    let app = entries[0].metrics.as_ref().unwrap();
    assert_eq!(app.files, vec![0, 2]);
    assert_eq!(app.total, exprs(11, 0));
    assert_eq!(entries[1].package, 1);
    let lib = entries[1].metrics.as_ref().unwrap();
    assert_eq!(lib.files, vec![1, 4]);
    assert_eq!(lib.total, exprs(6, 8));
    assert_eq!(entries[2].package, 2);
    assert!(entries[2].metrics.is_none());
}

#[test]
fn package_without_source_root_has_no_metrics() {
    let metadata = three_packages();
    let graph = Graph::build(&metadata, 0, all_kinds()).unwrap();
    let context = context(&[
        ("/work/app/src/main.rs", exprs(1, 2), false),
        ("/work/app/vendor/lib/src/lib.rs", exprs(3, 4), false),
    ]);
    let files = compiled(&["/work/app/src/main.rs", "/work/app/vendor/lib/src/lib.rs"]);
    let report = scan_to_report(&metadata, &graph, &context, &files);
    assert_eq!(report.packages_without_metrics, vec![2]);
    assert_eq!(report.packages.len(), 2);
    assert!(report.packages.iter().all(|entry| entry.package != 2));
    let mut sum = CounterBlock::new();
    for entry in &report.packages {
        sum = sum.saturating_add(&entry.unsafety.used).saturating_add(&entry.unsafety.unused);
    }
    assert_eq!(sum, exprs(4, 6));
    let quick = scan_forbid_to_report(&metadata, &graph, &context);
    assert_eq!(quick.packages_without_metrics, vec![2]);
    assert!(!quick.verdict(2));
}

#[test]
fn package_outside_the_filter_is_not_reported() {
    // The root depends on `tool` only through a dev edge.
    let metadata = Metadata {
        nodes: vec![
            node("app", Some("/work/app"), &[(1, DependencyKind::Dev)]),
            node("tool", Some("/work/tool"), &[]),
        ],
    };
    let filter =
        Selection { kinds: KindFilter { normal: true, build: false, dev: false }, all_targets: false };
    let graph = Graph::build(&metadata, 0, filter).unwrap();
    let context = context(&[
        ("/work/app/src/lib.rs", exprs(1, 0), true),
        ("/work/tool/src/lib.rs", exprs(0, 9), false),
    ]);
    let files = compiled(&["/work/app/src/lib.rs"]);
    let report = scan_to_report(&metadata, &graph, &context, &files);
    assert_eq!(report.packages.len(), 1);
    assert_eq!(report.packages[0].package, 0);
    assert!(report.packages_without_metrics.is_empty());
    let quick = scan_forbid_to_report(&metadata, &graph, &context);
    assert_eq!(quick.packages, vec![QuickReportEntry { package: 0, forbids_unsafe: true }]);
    assert!(quick.packages_without_metrics.is_empty());
    assert!(!quick.verdict(1));
}

#[test]
fn package_whose_only_file_failed_has_no_metrics() {
    let metadata = three_packages();
    let graph = Graph::build(&metadata, 0, all_kinds()).unwrap();
    let mut context = context(&[("/work/app/src/main.rs", exprs(1, 2), false)]);
    context.record_failure(String::from("/work/app/vendor/lib/src/lib.rs"));
    let files = compiled(&["/work/app/src/main.rs", "/work/app/vendor/lib/src/lib.rs"]);
    // The report is made all the same, with the gap shown.
    let report = scan_to_report(&metadata, &graph, &context, &files);
    assert_eq!(report.packages.len(), 1);
    assert_eq!(report.packages[0].package, 0);
    assert_eq!(report.packages_without_metrics, vec![1, 2]);
    assert_eq!(
        report.used_but_not_scanned_files,
        vec![String::from("/work/app/vendor/lib/src/lib.rs")]
    );
    let quick = scan_forbid_to_report(&metadata, &graph, &context);
    assert!(!quick.verdict(1));
}

#[test]
fn packages_with_equal_roots_go_to_the_first() {
    let metadata = Metadata {
        nodes: vec![
            node("a", Some("/work/same"), &[(1, DependencyKind::Normal)]),
            node("b", Some("/work/same"), &[]),
        ],
    };
    let graph = Graph::build(&metadata, 0, all_kinds()).unwrap();
    let context = context(&[("/work/same/src/lib.rs", exprs(1, 1), false)]);
    let entries = package_metrics(&metadata, &graph, &context);
    assert_eq!(entries[0].metrics.as_ref().unwrap().files, vec![0]);
    assert!(entries[1].metrics.is_none());
}

#[test]
fn source_root_ends_at_a_component() {
    let metadata = Metadata {
        nodes: vec![
            node("a", Some("/work/a/"), &[(1, DependencyKind::Normal), (2, DependencyKind::Normal)]),
            node("b", Some("/work/b"), &[]),
            node("c", Some("/work/b/c.rs"), &[]),
        ],
    };
    let graph = Graph::build(&metadata, 0, all_kinds()).unwrap();
    let context = context(&[
        ("/work/a/x.rs", exprs(1, 0), false),
        ("/work/bb/x.rs", exprs(2, 0), false),
        ("/work/b", exprs(4, 0), false),
        ("/work/b/c.rs", exprs(8, 0), false),
    ]);
    let entries = package_metrics(&metadata, &graph, &context);
    assert_eq!(entries[0].metrics.as_ref().unwrap().files, vec![0]);
    assert_eq!(entries[1].metrics.as_ref().unwrap().files, vec![2]);
    assert_eq!(entries[2].metrics.as_ref().unwrap().files, vec![3]);
}

#[test]
fn totals_stay_at_the_largest_number() {
    let metadata = Metadata { nodes: vec![node("a", Some("/a"), &[])] };
    let graph = Graph::build(&metadata, 0, all_kinds()).unwrap();
    let context = context(&[
        ("/a/x.rs", exprs(u64::MAX - 1, 5), false),
        ("/a/y.rs", exprs(7, 6), false),
    ]);
    let entries = package_metrics(&metadata, &graph, &context);
    assert_eq!(entries[0].metrics.as_ref().unwrap().total, exprs(u64::MAX, 11));
}

#[test]
fn used_and_unused_files_are_summed_apart() {
    let metadata = three_packages();
    let graph = Graph::build(&metadata, 0, all_kinds()).unwrap();
    let context = context(&[
        ("/work/app/src/main.rs", exprs(1, 2), true),
        ("/work/app/src/unused.rs", exprs(10, 20), true),
        ("/work/app/src/other.rs", exprs(100, 200), false),
    ]);
    let files = compiled(&["/work/app/src/other.rs", "/work/app/src/main.rs", "/gone.rs"]);
    let report = scan_to_report(&metadata, &graph, &context, &files);
    assert_eq!(report.packages.len(), 1);
    let entry = report.packages[0];
    assert_eq!(entry.package, 0);
    assert_eq!(
        entry.unsafety,
        UnsafeInfo { used: exprs(101, 202), unused: exprs(10, 20), forbids_unsafe: false }
    );
    assert_eq!(report.packages_without_metrics, vec![1, 2]);
    assert_eq!(report.used_but_not_scanned_files, vec![String::from("/gone.rs")]);
    let entries = package_metrics(&metadata, &graph, &context);
    let info = unsafe_stats(entries[0].metrics.as_ref().unwrap(), context.files(), &files);
    assert_eq!(info, entry.unsafety);
}

#[test]
fn unsafe_ratio_of_used_code() {
    let mut used = CounterBlock::new();
    used.functions = Count { safe: 3, unsafe_: 1 };
    used.exprs = Count { safe: 10, unsafe_: 5 };
    used.item_impls = Count { safe: 0, unsafe_: 2 };
    used.item_traits = Count { safe: 1, unsafe_: 0 };
    used.methods = Count { safe: 6, unsafe_: 2 };
    let info = UnsafeInfo { used, unused: exprs(1000, 1000), forbids_unsafe: false };
    assert_eq!(info.unsafe_ratio(), Ratio { part: 10, whole: 30 });
    let nothing = UnsafeInfo {
        used: CounterBlock::new(),
        unused: CounterBlock::new(),
        forbids_unsafe: true,
    };
    assert_eq!(nothing.unsafe_ratio(), Ratio { part: 0, whole: 0 });
    let huge = UnsafeInfo { used: exprs(u64::MAX, u64::MAX), unused: used, forbids_unsafe: false };
    assert_eq!(huge.unsafe_ratio(), Ratio { part: u64::MAX, whole: u64::MAX });
}

#[test]
fn coverage_gaps_are_sorted_and_listed_once() {
    let context = context(&[
        ("/p/src/lib.rs", exprs(0, 0), false),
        ("/p/src/a.rs", exprs(0, 0), false),
    ]);
    let files = compiled(&[
        "/p/src/z.rs",
        "/p/src/lib.rs",
        "/p/src/b.rs",
        "/p/src/z.rs",
        "/p/build.rs",
        "/p/src/b.rs",
        "/p/src/b",
        "/p/src/\u{e9}.rs",
    ]);
    let gaps = list_files_used_but_not_scanned(&context, &files);
    assert_eq!(
        gaps,
        vec![
            String::from("/p/build.rs"),
            String::from("/p/src/b"),
            String::from("/p/src/b.rs"),
            String::from("/p/src/z.rs"),
            String::from("/p/src/\u{e9}.rs"),
        ]
    );
    // The same as the difference of the two sets, worked out another way.
    let mut expected: Vec<String> = files
        .paths
        .iter()
        .filter(|p| !context.files().iter().any(|f| &f.path == *p))
        .cloned()
        .collect();
    expected.sort();
    expected.dedup();
    assert_eq!(gaps, expected);
}

#[test]
fn no_gaps_when_everything_was_scanned() {
    let context = context(&[("/p/lib.rs", exprs(0, 0), false), ("/p/extra.rs", exprs(0, 0), false)]);
    assert!(list_files_used_but_not_scanned(&context, &compiled(&["/p/lib.rs"])).is_empty());
    assert!(list_files_used_but_not_scanned(&context, &compiled(&[])).is_empty());
    assert!(compiled(&["/p/lib.rs"]).contains("/p/lib.rs"));
    assert!(!compiled(&["/p/lib.rs"]).contains("/p/lib"));
}

#[test]
fn quick_verdict_needs_every_file_to_forbid() {
    let metadata = three_packages();
    let graph = Graph::build(&metadata, 0, all_kinds()).unwrap();
    let context = context(&[
        ("/work/app/src/main.rs", exprs(0, 0), true),
        ("/work/app/src/other.rs", exprs(0, 0), false),
        ("/work/app/vendor/lib/src/lib.rs", exprs(0, 7), true),
        ("/work/app/vendor/lib/src/more.rs", exprs(0, 0), true),
    ]);
    let report = scan_forbid_to_report(&metadata, &graph, &context);
    assert_eq!(
        report.packages,
        vec![
            QuickReportEntry { package: 0, forbids_unsafe: false },
            QuickReportEntry { package: 1, forbids_unsafe: true },
        ]
    );
    assert_eq!(report.packages_without_metrics, vec![2]);
    assert!(!report.verdict(0));
    assert!(report.verdict(1));
    assert!(!report.verdict(2));
    assert!(!report.verdict(3));
    for index in 0..3 {
        let owned: Vec<&SourceFileMetrics> = context
            .files()
            .iter()
            .filter(|f| match index {
                0 => f.path.starts_with("/work/app/src/"),
                1 => f.path.starts_with("/work/app/vendor/lib/"),
                _ => false,
            })
            .collect();
        let expected = !owned.is_empty()
            && owned.iter().all(|f| f.forbids_escape)
            && !report.packages_without_metrics.contains(&index);
        assert_eq!(report.verdict(index), expected);
    }
}

#[test]
fn reports_are_the_same_on_every_run() {
    let metadata = three_packages();
    let graph = Graph::build(&metadata, 0, all_kinds()).unwrap();
    let make = |order: &[&str]| {
        let context = context(&[
            ("/work/app/src/main.rs", exprs(1, 2), true),
            ("/work/app/vendor/lib/src/lib.rs", exprs(3, 4), false),
        ]);
        let report = scan_to_report(&metadata, &graph, &context, &compiled(order));
        format!("{:?}", report)
    };
    let first = make(&["/x.rs", "/work/app/src/main.rs", "/a.rs"]);
    let second = make(&["/x.rs", "/work/app/src/main.rs", "/a.rs"]);
    // The compiled files are a set: their order does not show in the report.
    let third = make(&["/a.rs", "/x.rs", "/a.rs", "/work/app/src/main.rs"]);
    assert_eq!(first, second);
    assert_eq!(first, third);
}

#[test]
fn output_format_selects_the_rendering() {
    let metadata = three_packages();
    let graph = Graph::build(&metadata, 0, all_kinds()).unwrap();
    let context = context(&[("/work/app/src/main.rs", exprs(1, 2), true)]);
    let files = compiled(&["/work/app/src/main.rs", "/work/app/build.rs"]);
    let json = scan_unsafe(&metadata, &graph, &context, &files, OutputFormat::Json);
    assert_eq!(json.rendering, Rendering::Json);
    assert_eq!(json.report.packages.len(), 1);
    assert_eq!(json.report.packages[0].unsafety.used, exprs(1, 2));
    assert_eq!(json.report.used_but_not_scanned_files, vec![String::from("/work/app/build.rs")]);
    for format in [
        OutputFormat::Ascii,
        OutputFormat::GitHubMarkdown,
        OutputFormat::Ratio,
        OutputFormat::Utf8,
    ] {
        let table = scan_unsafe(&metadata, &graph, &context, &files, format);
        assert_eq!(table.rendering, Rendering::Table);
        assert_eq!(table.report.packages, json.report.packages);
        let quick = scan_forbid_unsafe(&metadata, &graph, &context, format);
        assert_eq!(quick.rendering, Rendering::Table);
    }
    let quick = scan_forbid_unsafe(&metadata, &graph, &context, OutputFormat::Json);
    assert_eq!(quick.rendering, Rendering::Json);
    assert_eq!(quick.report.packages, vec![QuickReportEntry { package: 0, forbids_unsafe: true }]);
    assert_eq!(quick.report.packages_without_metrics, vec![1, 2]);
}

#[test]
fn inverted_graph_reports_the_same_packages() {
    let metadata = three_packages();
    let graph = Graph::build(&metadata, 0, all_kinds()).unwrap();
    let context = context(&[("/work/app/src/main.rs", exprs(1, 2), true)]);
    let direct = scan_forbid_to_report(&metadata, &graph, &context);
    let turned = scan_forbid_to_report(&metadata, &graph.inverted(), &context);
    assert_eq!(direct.packages, turned.packages);
    assert_eq!(direct.packages_without_metrics, turned.packages_without_metrics);
}

#[test]
fn full_scan_resolves_then_scans() {
    let scan = FullScan::start();
    assert_eq!(scan.action(), FullScanAction::ResolveFiles);
    let scan = scan.advance(FullScanEvent::Resolved(Ok(compiled(&["/p/lib.rs"]))));
    assert_eq!(scan.action(), FullScanAction::ScanSources);
    let scan = scan.advance(FullScanEvent::Scanned(context(&[("/p/lib.rs", exprs(1, 1), false)])));
    assert_eq!(scan.action(), FullScanAction::Report);
    let details = scan.into_details().unwrap();
    assert_eq!(details.rs_files_used.paths, vec![String::from("/p/lib.rs")]);
    assert_eq!(details.geiger_context.files().len(), 1);
}

#[test]
fn full_scan_fails_without_a_file_set() {
    let scan = FullScan::start().advance(FullScanEvent::Resolved(Err(BuildResolutionError {
        message: String::from("no compile plan"),
    })));
    assert_eq!(scan.action(), FullScanAction::Abort { exit_code: 1 });
    // Nothing that comes later revives the scan.
    let scan = scan.advance(FullScanEvent::Scanned(ScanContext::new()));
    assert_eq!(scan.action(), FullScanAction::Abort { exit_code: 1 });
    let scan = scan.advance(FullScanEvent::Resolved(Ok(compiled(&[]))));
    assert_eq!(scan.action(), FullScanAction::Abort { exit_code: 1 });
    match scan {
        FullScan::Failed(error) => assert_eq!(error.message, "no compile plan"),
        _ => panic!("expected a failed scan"),
    }
}

#[test]
fn full_scan_ignores_events_out_of_turn() {
    let scan = FullScan::start().advance(FullScanEvent::Scanned(ScanContext::new()));
    assert_eq!(scan.action(), FullScanAction::ResolveFiles);
    assert!(scan.into_details().is_none());
    let scan = FullScan::start()
        .advance(FullScanEvent::Resolved(Ok(compiled(&["/first.rs"]))))
        .advance(FullScanEvent::Resolved(Ok(compiled(&["/second.rs"]))));
    assert_eq!(scan.action(), FullScanAction::ScanSources);
    let details = scan.advance(FullScanEvent::Scanned(ScanContext::new())).into_details().unwrap();
    assert_eq!(details.rs_files_used.paths, vec![String::from("/first.rs")]);
}
