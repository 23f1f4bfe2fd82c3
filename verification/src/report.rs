//! The two report shapes and how they are built from the metrics.

use vstd::prelude::*;
use crate::aggregate::{
    counters_at, entry_views, metrics_of, package_metrics, package_metrics_spec, source_roots,
    PackageEntryView, PackageMetrics,
};
use crate::graph::{Graph, Metadata};
use crate::args::OutputFormat;
use crate::metrics::{clamp, lemma_clamped_step, sum_blocks, CounterBlock};
use crate::scan::{file_views, ScanContext, ScanContextView, SourceFileMetrics, SourceFileView};
use crate::text::{
    chars_of, lemma_lex_total, lemma_lex_transitive, lex_lt, text_eq, text_lt, texts,
};

verus! {

/// The source files that are part of a real compiled artifact for the active
/// selection. The order of the paths and repetitions among them mean nothing.
#[derive(Debug)]
pub struct CompiledFileSet {
    pub paths: Vec<String>,
}

impl View for CompiledFileSet {
    type V = Set<Seq<char>>;

    open spec fn view(&self) -> Set<Seq<char>> {
        texts(self.paths@).to_set()
    }
}

impl CompiledFileSet {
    /// Tells whether `path` is in the set.
    pub fn contains(&self, path: &str) -> (found: bool)
        ensures
            found == self@.contains(path@),
    {
        let mut i: usize = 0;
        while i < self.paths.len()
            invariant
                i <= self.paths.len(),
                forall|k: int| 0 <= k < i ==> (#[trigger] texts(self.paths@)[k]) != path@,
            decreases self.paths.len() - i,
        {
            if crate::text::same_text(self.paths[i].as_str(), path) {
                assert(texts(self.paths@)[i as int] == path@);
                return true;
            }
            i = i + 1;
        }
        false
    }
}

/// The coverage gaps: the compiled files that the scan did not visit.
pub open spec fn coverage_gaps(compiled: Set<Seq<char>>, context: ScanContextView) -> Set<Seq<char>> {
    compiled.difference(context.visited_paths())
}

/// Whether `paths` is in dictionary order with no path twice.
pub open spec fn strictly_sorted(paths: Seq<Seq<char>>) -> bool {
    forall|i: int, j: int| 0 <= i < j < paths.len() ==> lex_lt(#[trigger] paths[i], #[trigger] paths[j])
}

/// The texts of a sequence of character vectors.
pub open spec fn char_texts(keys: Seq<Vec<char>>) -> Seq<Seq<char>> {
    Seq::new(keys.len(), |i: int| keys[i]@)
}

/// Lists the compiled files that the scan did not visit, sorted and each once.
pub fn list_files_used_but_not_scanned(context: &ScanContext, rs_files_used: &CompiledFileSet) -> (gaps:
    Vec<String>)
    ensures
        texts(gaps@).to_set() == coverage_gaps(rs_files_used@, context@),
        strictly_sorted(texts(gaps@)),
{
    let mut gaps: Vec<String> = Vec::new();
    let mut keys: Vec<Vec<char>> = Vec::new();
    let ghost compiled = texts(rs_files_used.paths@);
    let mut i: usize = 0;
    while i < rs_files_used.paths.len()
        invariant
            i <= rs_files_used.paths.len(),
            compiled == texts(rs_files_used.paths@),
            keys.len() == gaps.len(),
            char_texts(keys@) == texts(gaps@),
            strictly_sorted(texts(gaps@)),
            forall|p: Seq<char>|
                #[trigger] texts(gaps@).contains(p) <==> (compiled.take(i as int).contains(p)
                    && !context@.has_path(p)),
        decreases rs_files_used.paths.len() - i,
    {
        let path = &rs_files_used.paths[i];
        let ghost before = texts(gaps@);
        let ghost text = path@;
        proof {
            let done = compiled.take(i as int);
            let next = compiled.take(i + 1);
            assert(next =~= done.push(text));
            assert forall|p: Seq<char>| next.contains(p) <==> (done.contains(p) || p == text) by {
                if done.contains(p) {
                    let k = choose|k: int| 0 <= k < done.len() && done[k] == p;
                    assert(next[k] == p);
                }
                if p == text {
                    assert(next[i as int] == p);
                }
                if next.contains(p) {
                    let k = choose|k: int| 0 <= k < next.len() && next[k] == p;
                    if k < i {
                        assert(done[k] == p);
                    }
                }
            }
        }
        if !context.has_path(path.as_str()) {
            let key = chars_of(path.as_str());
            let mut at: usize = 0;
            while at < keys.len() && text_lt(&keys[at], &key)
                invariant
                    at <= keys.len(),
                    keys.len() == gaps.len(),
                    char_texts(keys@) == before,
                    forall|k: int| 0 <= k < at ==> lex_lt(#[trigger] before[k], key@),
                decreases keys.len() - at,
            {
                assert(char_texts(keys@)[at as int] == keys@[at as int]@);
                at = at + 1;
            }
            let present = at < keys.len() && text_eq(&keys[at], &key);
            proof {
                if at < keys.len() {
                    assert(char_texts(keys@)[at as int] == keys@[at as int]@);
                }
            }
            if present {
                proof {
                    assert(before[at as int] == text);
                    assert(before.contains(text));
                }
            } else {
                let copy = path.clone();
                keys.insert(at, key);
                gaps.insert(at, copy);
                proof {
                    let after = texts(gaps@);
                    assert(after =~= before.insert(at as int, text));
                    assert(char_texts(keys@) =~= after);
                    assert(after[at as int] == text);
                    assert forall|a: int, b: int| 0 <= a < b < after.len() implies lex_lt(
                        #[trigger] after[a],
                        #[trigger] after[b],
                    ) by {
                        if at < before.len() {
                            lemma_lex_total(before[at as int], text);
                        }
                        if b < at {
                            assert(after[a] == before[a]);
                            assert(after[b] == before[b]);
                        } else if b == at {
                            assert(after[a] == before[a]);
                        } else {
                            assert(after[b] == before[b - 1]);
                            if a < at {
                                assert(after[a] == before[a]);
                            } else if a == at {
                                if b - 1 > at {
                                    lemma_lex_transitive(text, before[at as int], before[b - 1]);
                                }
                            } else {
                                assert(after[a] == before[a - 1]);
                            }
                        }
                    }
                    assert forall|p: Seq<char>| #[trigger]
                        after.contains(p) <==> (before.contains(p) || p == text) by {
                        if before.contains(p) {
                            let k = choose|k: int| 0 <= k < before.len() && before[k] == p;
                            if k < at {
                                assert(after[k] == p);
                            } else {
                                assert(after[k + 1] == p);
                            }
                        }
                        if after.contains(p) {
                            let k = choose|k: int| 0 <= k < after.len() && after[k] == p;
                            if k < at {
                                assert(before[k] == p);
                            } else if k > at {
                                assert(before[k - 1] == p);
                            }
                        }
                    }
                }
            }
        }
        i = i + 1;
    }
    proof {
        assert(compiled.take(i as int) =~= compiled);
        assert(texts(gaps@).to_set() =~= coverage_gaps(rs_files_used@, context@));
    }
    gaps
}

/// The counters of a package's files, split by whether the build uses the file.
#[derive(Clone, Copy, Debug, PartialEq, Eq, Structural)]
pub struct UnsafeInfo {
    /// Sum over the files that are part of the compiled artifact.
    pub used: CounterBlock,
    /// Sum over the other files.
    pub unused: CounterBlock,
    /// Whether every file of the package forbids the escape construct.
    pub forbids_unsafe: bool,
}

/// One package of the full report.
#[derive(Clone, Copy, Debug, PartialEq, Eq, Structural)]
pub struct ReportEntry {
    /// Index of the package.
    pub package: usize,
    pub unsafety: UnsafeInfo,
}

/// One package of the quick report.
#[derive(Clone, Copy, Debug, PartialEq, Eq, Structural)]
pub struct QuickReportEntry {
    /// Index of the package.
    pub package: usize,
    pub forbids_unsafe: bool,
}

/// The test that the file at an index is, or is not, in the compiled set.
pub open spec fn use_is(files: Seq<SourceFileView>, compiled: Set<Seq<char>>, used: bool) -> spec_fn(
    usize,
) -> bool {
    |i: usize| compiled.contains(files[i as int].path) == used
}

/// Whether every file at `indices` forbids the escape construct.
pub open spec fn forbids_all(files: Seq<SourceFileView>, indices: Seq<usize>) -> bool {
    forall|j: int| 0 <= j < indices.len() ==> files[#[trigger] indices[j] as int].forbids_escape
}

/// The counters of the files at `owned`, summed separately over those in the
/// compiled set and those outside it, and whether all those files forbid the
/// escape construct.
pub open spec fn unsafe_stats_spec(
    files: Seq<SourceFileView>,
    owned: Seq<usize>,
    compiled: Set<Seq<char>>,
) -> UnsafeInfo {
    UnsafeInfo {
        used: sum_blocks(counters_at(files, owned.filter(use_is(files, compiled, true)))).clamped(),
        unused: sum_blocks(
            counters_at(files, owned.filter(use_is(files, compiled, false))),
        ).clamped(),
        forbids_unsafe: forbids_all(files, owned),
    }
}

/// Sums the counters of a package's files, those that the build uses apart
/// from the others.
pub fn unsafe_stats(
    package_metrics: &PackageMetrics,
    files: &Vec<SourceFileMetrics>,
    rs_files_used: &CompiledFileSet,
) -> (info: UnsafeInfo)
    requires
        forall|j: int|
            0 <= j < package_metrics.files.len() ==> #[trigger] package_metrics.files[j]
                < files.len(),
    ensures
        info == unsafe_stats_spec(file_views(files@), package_metrics.files@, rs_files_used@),
{
    let ghost views = file_views(files@);
    let ghost owned = package_metrics.files@;
    let ghost compiled = rs_files_used@;
    let mut used = CounterBlock::new();
    let mut unused = CounterBlock::new();
    let mut forbids = true;
    let mut j: usize = 0;
    proof {
        reveal(Seq::filter);
        assert(owned.take(0) =~= Seq::empty());
        assert(counters_at(views, Seq::<usize>::empty()) =~= Seq::empty());
    }
    while j < package_metrics.files.len()
        invariant
            j <= package_metrics.files.len(),
            views == file_views(files@),
            owned == package_metrics.files@,
            compiled == rs_files_used@,
            forall|k: int| 0 <= k < owned.len() ==> #[trigger] owned[k] < files.len(),
            used == sum_blocks(
                counters_at(views, owned.take(j as int).filter(use_is(views, compiled, true))),
            ).clamped(),
            unused == sum_blocks(
                counters_at(views, owned.take(j as int).filter(use_is(views, compiled, false))),
            ).clamped(),
            forbids == forbids_all(views, owned.take(j as int)),
        decreases package_metrics.files.len() - j,
    {
        let index = package_metrics.files[j];
        let file = &files[index];
        let is_used = rs_files_used.contains(file.path.as_str());
        proof {
            let done = owned.take(j as int);
            let next = owned.take(j + 1);
            assert(next =~= done.push(index));
            assert(views[index as int] == files@[index as int]@);
            done.lemma_filter_push(index, use_is(views, compiled, true));
            done.lemma_filter_push(index, use_is(views, compiled, false));
            let kept = done.filter(use_is(views, compiled, is_used));
            let before = counters_at(views, kept);
            let after = counters_at(views, kept.push(index));
            assert(after.drop_last() =~= before);
            assert(after.last() == file.counters);
            lemma_clamped_step(sum_blocks(before), file.counters);
            assert(forbids_all(views, next) == (forbids_all(views, done)
                && file.forbids_escape)) by {
                if forbids_all(views, next) {
                    assert(next[j as int] == index);
                    assert forall|k: int| 0 <= k < done.len() implies views[#[trigger] done[k] as int].forbids_escape by {
                        assert(next[k] == done[k]);
                    }
                }
                if forbids_all(views, done) && file.forbids_escape {
                    assert forall|k: int| 0 <= k < next.len() implies views[#[trigger] next[k] as int].forbids_escape by {
                        if k < j {
                            assert(next[k] == done[k]);
                        }
                    }
                }
            }
        }
        if is_used {
            used = used.saturating_add(&file.counters);
        } else {
            unused = unused.saturating_add(&file.counters);
        }
        forbids = forbids && file.forbids_escape;
        j = j + 1;
    }
    assert(owned.take(j as int) =~= owned);
    UnsafeInfo { used, unused, forbids_unsafe: forbids }
}

/// The entries of the full report: one for each package that has metrics, in order.
pub open spec fn full_entries(
    entries: Seq<PackageEntryView>,
    files: Seq<SourceFileView>,
    compiled: Set<Seq<char>>,
) -> Seq<ReportEntry>
    decreases entries.len(),
{
    if entries.len() == 0 {
        Seq::empty()
    } else {
        let earlier = full_entries(entries.drop_last(), files, compiled);
        match entries.last().metrics {
            Some(m) => earlier.push(
                ReportEntry {
                    package: entries.last().package,
                    unsafety: unsafe_stats_spec(files, m.files, compiled),
                },
            ),
            None => earlier,
        }
    }
}

/// The entries of the quick report: one for each package that has metrics, in
/// order, with whether all its files forbid the escape construct.
pub open spec fn quick_entries(entries: Seq<PackageEntryView>, files: Seq<SourceFileView>) -> Seq<
    QuickReportEntry,
>
    decreases entries.len(),
{
    if entries.len() == 0 {
        Seq::empty()
    } else {
        let earlier = quick_entries(entries.drop_last(), files);
        match entries.last().metrics {
            Some(m) => earlier.push(
                QuickReportEntry {
                    package: entries.last().package,
                    forbids_unsafe: forbids_all(files, m.files),
                },
            ),
            None => earlier,
        }
    }
}

/// The packages without metrics, in order.
pub open spec fn without_metrics(entries: Seq<PackageEntryView>) -> Seq<usize>
    decreases entries.len(),
{
    if entries.len() == 0 {
        Seq::empty()
    } else {
        let earlier = without_metrics(entries.drop_last());
        match entries.last().metrics {
            Some(_) => earlier,
            None => earlier.push(entries.last().package),
        }
    }
}

/// The full report: counters for each package that has metrics, and what was
/// left unaudited.
#[derive(Debug)]
pub struct SafetyReport {
    pub packages: Vec<ReportEntry>,
    /// The packages that own no scanned file. Their metrics are unknown, not zero.
    pub packages_without_metrics: Vec<usize>,
    /// The compiled files that the scan did not visit, sorted, each once.
    pub used_but_not_scanned_files: Vec<String>,
}

/// Mathematical content of a [`SafetyReport`].
pub struct SafetyReportView {
    pub packages: Seq<ReportEntry>,
    pub packages_without_metrics: Seq<usize>,
    pub used_but_not_scanned_files: Seq<Seq<char>>,
}

impl View for SafetyReport {
    type V = SafetyReportView;

    open spec fn view(&self) -> SafetyReportView {
        SafetyReportView {
            packages: self.packages@,
            packages_without_metrics: self.packages_without_metrics@,
            used_but_not_scanned_files: texts(self.used_but_not_scanned_files@),
        }
    }
}

/// The quick report: for each package that has metrics, whether it forbids
/// the escape construct.
#[derive(Debug)]
pub struct QuickSafetyReport {
    pub packages: Vec<QuickReportEntry>,
    /// The packages that own no scanned file.
    pub packages_without_metrics: Vec<usize>,
}

/// Mathematical content of a [`QuickSafetyReport`].
pub struct QuickSafetyReportView {
    pub packages: Seq<QuickReportEntry>,
    pub packages_without_metrics: Seq<usize>,
}

impl View for QuickSafetyReport {
    type V = QuickSafetyReportView;

    open spec fn view(&self) -> QuickSafetyReportView {
        QuickSafetyReportView {
            packages: self.packages@,
            packages_without_metrics: self.packages_without_metrics@,
        }
    }
}

impl QuickSafetyReportView {
    /// The verdict on `package`: true when the report has an entry for it that
    /// says it forbids the escape construct. A package without an entry, or
    /// without metrics, is not known to forbid it.
    pub open spec fn verdict(self, package: usize) -> bool {
        self.packages.contains(QuickReportEntry { package, forbids_unsafe: true })
    }
}

impl QuickSafetyReport {
    /// Tells whether the report says that `package` forbids the escape construct.
    pub fn verdict(&self, package: usize) -> (forbids: bool)
        ensures
            forbids == self@.verdict(package),
    {
        let mut i: usize = 0;
        while i < self.packages.len()
            invariant
                i <= self.packages.len(),
                forall|k: int|
                    0 <= k < i ==> #[trigger] self.packages[k] != (QuickReportEntry {
                        package,
                        forbids_unsafe: true,
                    }),
            decreases self.packages.len() - i,
        {
            if self.packages[i].package == package && self.packages[i].forbids_unsafe {
                assert(self.packages@[i as int] == (QuickReportEntry {
                    package,
                    forbids_unsafe: true,
                }));
                return true;
            }
            i = i + 1;
        }
        false
    }
}

/// The full report of a graph's packages.
pub open spec fn safety_report_spec(
    roots: Seq<Option<Seq<char>>>,
    order: Seq<usize>,
    files: Seq<SourceFileView>,
    compiled: Set<Seq<char>>,
) -> (Seq<ReportEntry>, Seq<usize>) {
    let entries = package_metrics_spec(roots, order, files);
    (full_entries(entries, files, compiled), without_metrics(entries))
}

/// The quick report of a graph's packages.
pub open spec fn quick_report_spec(
    roots: Seq<Option<Seq<char>>>,
    order: Seq<usize>,
    files: Seq<SourceFileView>,
) -> QuickSafetyReportView {
    let entries = package_metrics_spec(roots, order, files);
    QuickSafetyReportView {
        packages: quick_entries(entries, files),
        packages_without_metrics: without_metrics(entries),
    }
}

/// Whether `report` is the full report of these packages, files and compiled set.
pub open spec fn is_safety_report(
    report: SafetyReportView,
    roots: Seq<Option<Seq<char>>>,
    order: Seq<usize>,
    context: ScanContextView,
    compiled: Set<Seq<char>>,
) -> bool {
    &&& (report.packages, report.packages_without_metrics) == safety_report_spec(
        roots,
        order,
        context.files,
        compiled,
    )
    &&& report.used_but_not_scanned_files.to_set() == coverage_gaps(compiled, context)
    &&& strictly_sorted(report.used_but_not_scanned_files)
}

/// Builds the full report: for each package of the graph that owns scanned
/// files the sums of their counters, the packages that own none, and the
/// compiled files that were not scanned.
pub fn scan_to_report(
    metadata: &Metadata,
    graph: &Graph,
    geiger_context: &ScanContext,
    rs_files_used: &CompiledFileSet,
) -> (report: SafetyReport)
    requires
        graph@.links.len() == metadata.nodes@.len(),
    ensures
        is_safety_report(
            report@,
            source_roots(metadata),
            graph@.order,
            geiger_context@,
            rs_files_used@,
        ),
{
    let entries = package_metrics(metadata, graph, geiger_context);
    let files = geiger_context.files();
    let file_count = files.len();
    let ghost views = geiger_context@.files;
    let ghost compiled = rs_files_used@;
    let ghost specs = entry_views(entries@);
    let ghost roots = source_roots(metadata);
    let ghost order = graph@.order;
    let mut packages: Vec<ReportEntry> = Vec::new();
    let mut without: Vec<usize> = Vec::new();
    let mut i: usize = 0;
    assert(specs.take(0) =~= Seq::empty());
    while i < entries.len()
        invariant
            i <= entries.len(),
            specs == entry_views(entries@),
            specs == package_metrics_spec(roots, order, views),
            views == file_views(files@),
            views.len() == file_count,
            compiled == rs_files_used@,
            packages@ == full_entries(specs.take(i as int), views, compiled),
            without@ == without_metrics(specs.take(i as int)),
        decreases entries.len() - i,
    {
        proof {
            let next = specs.take(i + 1);
            assert(next.drop_last() =~= specs.take(i as int));
            assert(next.last() == entries@[i as int]@);
            assert(specs[i as int] == entries@[i as int]@);
            assert(specs.len() == order.len());
            crate::aggregate::lemma_owned_in_range(
                roots,
                order,
                views,
                order[i as int],
                views.len(),
            );
            assert(specs[i as int].metrics == metrics_of(roots, order, views, order[i as int]));
        }
        match &entries[i].metrics {
            Some(metrics) => {
                let unsafety = unsafe_stats(metrics, files, rs_files_used);
                packages.push(ReportEntry { package: entries[i].package, unsafety });
            },
            None => {
                without.push(entries[i].package);
            },
        }
        i = i + 1;
    }
    assert(specs.take(i as int) =~= specs);
    let used_but_not_scanned_files = list_files_used_but_not_scanned(geiger_context, rs_files_used);
    SafetyReport { packages, packages_without_metrics: without, used_but_not_scanned_files }
}

/// Builds the quick report: for each package of the graph that owns scanned
/// files whether all of them forbid the escape construct, and the packages
/// that own none.
pub fn scan_forbid_to_report(metadata: &Metadata, graph: &Graph, geiger_context: &ScanContext) -> (report:
    QuickSafetyReport)
    requires
        graph@.links.len() == metadata.nodes@.len(),
    ensures
        report@ == quick_report_spec(source_roots(metadata), graph@.order, geiger_context@.files),
{
    let entries = package_metrics(metadata, graph, geiger_context);
    let files = geiger_context.files();
    let file_count = files.len();
    let ghost views = geiger_context@.files;
    let ghost specs = entry_views(entries@);
    let ghost roots = source_roots(metadata);
    let ghost order = graph@.order;
    let mut packages: Vec<QuickReportEntry> = Vec::new();
    let mut without: Vec<usize> = Vec::new();
    let mut i: usize = 0;
    assert(specs.take(0) =~= Seq::empty());
    while i < entries.len()
        invariant
            i <= entries.len(),
            specs == entry_views(entries@),
            specs == package_metrics_spec(roots, order, views),
            views == file_views(files@),
            views.len() == file_count,
            packages@ == quick_entries(specs.take(i as int), views),
            without@ == without_metrics(specs.take(i as int)),
        decreases entries.len() - i,
    {
        proof {
            let next = specs.take(i + 1);
            assert(next.drop_last() =~= specs.take(i as int));
            assert(next.last() == entries@[i as int]@);
            assert(specs[i as int] == entries@[i as int]@);
            assert(specs.len() == order.len());
            crate::aggregate::lemma_owned_in_range(
                roots,
                order,
                views,
                order[i as int],
                views.len(),
            );
            assert(specs[i as int].metrics == metrics_of(roots, order, views, order[i as int]));
        }
        match &entries[i].metrics {
            Some(metrics) => {
                let forbids_unsafe = all_forbid(files, &metrics.files);
                packages.push(QuickReportEntry { package: entries[i].package, forbids_unsafe });
            },
            None => {
                without.push(entries[i].package);
            },
        }
        i = i + 1;
    }
    assert(specs.take(i as int) =~= specs);
    QuickSafetyReport { packages, packages_without_metrics: without }
}

/// Tells whether every file at `indices` forbids the escape construct.
fn all_forbid(files: &Vec<SourceFileMetrics>, indices: &Vec<usize>) -> (all: bool)
    requires
        forall|j: int| 0 <= j < indices.len() ==> #[trigger] indices[j] < files.len(),
    ensures
        all == forbids_all(file_views(files@), indices@),
{
    let mut j: usize = 0;
    while j < indices.len()
        invariant
            j <= indices.len(),
            forall|k: int| 0 <= k < indices.len() ==> #[trigger] indices[k] < files.len(),
            forall|k: int|
                0 <= k < j ==> file_views(files@)[#[trigger] indices[k] as int].forbids_escape,
        decreases indices.len() - j,
    {
        if !files[indices[j]].forbids_escape {
            assert(!file_views(files@)[indices[j as int] as int].forbids_escape);
            return false;
        }
        j = j + 1;
    }
    true
}

/// How a report is handed on.
#[derive(Clone, Copy, Debug, PartialEq, Eq, Structural)]
pub enum Rendering {
    /// Serialised as JSON.
    Json,
    /// Drawn as a table of the dependency tree.
    Table,
}

impl Rendering {
    /// JSON for the JSON format, a table for every other format.
    pub open spec fn of(format: OutputFormat) -> Rendering {
        if format == OutputFormat::Json {
            Rendering::Json
        } else {
            Rendering::Table
        }
    }
}

/// The outcome of a full scan: the report and how it is handed on.
#[derive(Debug)]
pub struct ScanOutput {
    pub rendering: Rendering,
    pub report: SafetyReport,
}

/// The outcome of a quick scan: the report and how it is handed on.
#[derive(Debug)]
pub struct QuickScanOutput {
    pub rendering: Rendering,
    pub report: QuickSafetyReport,
}

/// Reports on a full scan in the shape that the output format asks for.
pub fn scan_unsafe(
    metadata: &Metadata,
    graph: &Graph,
    geiger_context: &ScanContext,
    rs_files_used: &CompiledFileSet,
    output_format: OutputFormat,
) -> (output: ScanOutput)
    requires
        graph@.links.len() == metadata.nodes@.len(),
    ensures
        output.rendering == Rendering::of(output_format),
        is_safety_report(
            output.report@,
            source_roots(metadata),
            graph@.order,
            geiger_context@,
            rs_files_used@,
        ),
{
    let report = scan_to_report(metadata, graph, geiger_context, rs_files_used);
    match output_format {
        OutputFormat::Json => ScanOutput { rendering: Rendering::Json, report },
        _ => ScanOutput { rendering: Rendering::Table, report },
    }
}

/// Reports on a scan of entry points in the shape that the output format asks for.
pub fn scan_forbid_unsafe(
    metadata: &Metadata,
    graph: &Graph,
    geiger_context: &ScanContext,
    output_format: OutputFormat,
) -> (output: QuickScanOutput)
    requires
        graph@.links.len() == metadata.nodes@.len(),
    ensures
        output.rendering == Rendering::of(output_format),
        output.report@ == quick_report_spec(
            source_roots(metadata),
            graph@.order,
            geiger_context@.files,
        ),
{
    let report = scan_forbid_to_report(metadata, graph, geiger_context);
    match output_format {
        OutputFormat::Json => QuickScanOutput { rendering: Rendering::Json, report },
        _ => QuickScanOutput { rendering: Rendering::Table, report },
    }
}

/// A share as two whole numbers: so many of so many.
#[derive(Clone, Copy, Debug, PartialEq, Eq, Structural)]
pub struct Ratio {
    pub part: u64,
    pub whole: u64,
}

impl UnsafeInfo {
    /// The share of unsafe occurrences among all occurrences in the files that
    /// the build uses; each number is clamped to what can be stored.
    pub open spec fn unsafe_ratio_spec(self) -> Ratio {
        Ratio {
            part: clamp(self.used.total().unsafe_all()),
            whole: clamp(self.used.total().all()),
        }
    }

    /// Computes the share of unsafe occurrences in the files that the build uses.
    pub fn unsafe_ratio(&self) -> (ratio: Ratio)
        ensures
            ratio == self.unsafe_ratio_spec(),
            ratio.part <= ratio.whole,
    {
        let u = &self.used;
        let part = u.functions.unsafe_.saturating_add(u.exprs.unsafe_).saturating_add(
            u.item_impls.unsafe_,
        ).saturating_add(u.item_traits.unsafe_).saturating_add(u.methods.unsafe_);
        let safe = u.functions.safe.saturating_add(u.exprs.safe).saturating_add(
            u.item_impls.safe,
        ).saturating_add(u.item_traits.safe).saturating_add(u.methods.safe);
        Ratio { part, whole: part.saturating_add(safe) }
    }
}

/// A sorted list without repetitions is fixed by the set of its members.
pub proof fn lemma_sorted_unique(first: Seq<Seq<char>>, second: Seq<Seq<char>>)
    requires
        strictly_sorted(first),
        strictly_sorted(second),
        first.to_set() == second.to_set(),
    ensures
        first == second,
    decreases first.len(),
{
    if first.len() == 0 {
        if second.len() > 0 {
            assert(second.contains(second[0]));
            assert(first.to_set().contains(second[0]));
            assert(first.contains(second[0]));
        }
        assert(first =~= second);
    } else {
        let top = first.last();
        assert(first.contains(top));
        assert(second.to_set().contains(top));
        assert(second.contains(top));
        let i = choose|i: int| 0 <= i < second.len() && second[i] == top;
        let other = second.last();
        assert(second.contains(other));
        assert(first.to_set().contains(other));
        assert(first.contains(other));
        let j = choose|j: int| 0 <= j < first.len() && first[j] == other;
        if i < second.len() - 1 {
            // top comes before other, and other is top or comes before it
            if j < first.len() - 1 {
                lemma_lex_transitive(top, other, top);
            }
            crate::text::lemma_lex_irreflexive(top);
        }
        assert(i == second.len() - 1);
        let a = first.drop_last();
        let b = second.drop_last();
        assert forall|x: Seq<char>| a.to_set().contains(x) <==> b.to_set().contains(x) by {
            if a.contains(x) {
                let k = choose|k: int| 0 <= k < a.len() && a[k] == x;
                assert(first[k] == x);
                assert(first.contains(x));
                assert(second.to_set().contains(x));
                assert(second.contains(x));
                let m = choose|m: int| 0 <= m < second.len() && second[m] == x;
                if m == second.len() - 1 {
                    crate::text::lemma_lex_irreflexive(top);
                }
                assert(b[m] == x);
            }
            if b.contains(x) {
                let k = choose|k: int| 0 <= k < b.len() && b[k] == x;
                assert(second[k] == x);
                assert(second.contains(x));
                assert(first.to_set().contains(x));
                assert(first.contains(x));
                let m = choose|m: int| 0 <= m < first.len() && first[m] == x;
                if m == first.len() - 1 {
                    crate::text::lemma_lex_irreflexive(top);
                }
                assert(a[m] == x);
            }
        }
        assert(a.to_set() =~= b.to_set());
        assert forall|p: int, q: int| 0 <= p < q < a.len() implies lex_lt(
            #[trigger] a[p],
            #[trigger] a[q],
        ) by {
            assert(a[p] == first[p] && a[q] == first[q]);
        }
        assert forall|p: int, q: int| 0 <= p < q < b.len() implies lex_lt(
            #[trigger] b[p],
            #[trigger] b[q],
        ) by {
            assert(b[p] == second[p] && b[q] == second[q]);
        }
        lemma_sorted_unique(a, b);
        assert(first =~= a.push(top));
        assert(second =~= b.push(top));
    }
}

/// The full report is fixed by what it is built from: two reports of the same
/// packages, files and compiled set are equal, entry by entry and path by path.
pub proof fn lemma_report_deterministic(
    first: SafetyReportView,
    second: SafetyReportView,
    roots: Seq<Option<Seq<char>>>,
    order: Seq<usize>,
    context: ScanContextView,
    compiled: Set<Seq<char>>,
)
    requires
        is_safety_report(first, roots, order, context, compiled),
        is_safety_report(second, roots, order, context, compiled),
    ensures
        first == second,
{
    lemma_sorted_unique(first.used_but_not_scanned_files, second.used_but_not_scanned_files);
}

/// The entries of the quick report are those of the packages with metrics.
pub proof fn lemma_quick_entries(
    entries: Seq<PackageEntryView>,
    files: Seq<SourceFileView>,
    entry: QuickReportEntry,
)
    ensures
        quick_entries(entries, files).contains(entry) <==> exists|i: int|
            0 <= i < entries.len() && (#[trigger] entries[i]).package == entry.package
                && entries[i].metrics is Some && entry.forbids_unsafe == forbids_all(
                files,
                entries[i].metrics->Some_0.files,
            ),
    decreases entries.len(),
{
    if entries.len() > 0 {
        let shorter = entries.drop_last();
        let earlier = quick_entries(shorter, files);
        let now = quick_entries(entries, files);
        lemma_quick_entries(shorter, files, entry);
        if now.contains(entry) {
            let k = choose|k: int| 0 <= k < now.len() && now[k] == entry;
            if k < earlier.len() {
                assert(earlier[k] == entry);
                assert(earlier.contains(entry));
                let i = choose|i: int|
                    0 <= i < shorter.len() && (#[trigger] shorter[i]).package == entry.package
                        && shorter[i].metrics is Some && entry.forbids_unsafe == forbids_all(
                        files,
                        shorter[i].metrics->Some_0.files,
                    );
                assert(entries[i] == shorter[i]);
            } else {
                assert(entries[entries.len() - 1].package == entry.package);
            }
        }
        if exists|i: int|
            0 <= i < entries.len() && (#[trigger] entries[i]).package == entry.package
                && entries[i].metrics is Some && entry.forbids_unsafe == forbids_all(
                files,
                entries[i].metrics->Some_0.files,
            ) {
            let i = choose|i: int|
                0 <= i < entries.len() && (#[trigger] entries[i]).package == entry.package
                    && entries[i].metrics is Some && entry.forbids_unsafe == forbids_all(
                    files,
                    entries[i].metrics->Some_0.files,
                );
            if i < shorter.len() {
                assert(shorter[i] == entries[i]);
                assert(earlier.contains(entry));
                let k = choose|k: int| 0 <= k < earlier.len() && earlier[k] == entry;
                assert(now[k] == entry);
            } else {
                assert(now[now.len() - 1] == entry);
            }
        }
    }
}

/// The packages listed as without metrics are those whose entry has none.
pub proof fn lemma_without_metrics(entries: Seq<PackageEntryView>, package: usize)
    ensures
        without_metrics(entries).contains(package) <==> exists|i: int|
            0 <= i < entries.len() && (#[trigger] entries[i]).package == package
                && entries[i].metrics is None,
    decreases entries.len(),
{
    if entries.len() > 0 {
        let shorter = entries.drop_last();
        let earlier = without_metrics(shorter);
        let now = without_metrics(entries);
        lemma_without_metrics(shorter, package);
        if now.contains(package) {
            let k = choose|k: int| 0 <= k < now.len() && now[k] == package;
            if k < earlier.len() {
                assert(earlier[k] == package);
                assert(earlier.contains(package));
                let i = choose|i: int|
                    0 <= i < shorter.len() && (#[trigger] shorter[i]).package == package
                        && shorter[i].metrics is None;
                assert(entries[i] == shorter[i]);
            } else {
                assert(entries[entries.len() - 1].package == package);
            }
        }
        if exists|i: int|
            0 <= i < entries.len() && (#[trigger] entries[i]).package == package
                && entries[i].metrics is None {
            let i = choose|i: int|
                0 <= i < entries.len() && (#[trigger] entries[i]).package == package
                    && entries[i].metrics is None;
            if i < shorter.len() {
                assert(shorter[i] == entries[i]);
                assert(earlier.contains(package));
                let k = choose|k: int| 0 <= k < earlier.len() && earlier[k] == package;
                assert(now[k] == package);
            } else {
                assert(now[now.len() - 1] == package);
            }
        }
    }
}

/// The quick verdict on a package of the graph is true exactly when all the
/// files it owns forbid the escape construct and it is not listed as without
/// metrics; and it is listed as without metrics exactly when it owns no file.
pub proof fn lemma_quick_verdict(
    roots: Seq<Option<Seq<char>>>,
    order: Seq<usize>,
    files: Seq<SourceFileView>,
    k: int,
)
    requires
        order.no_duplicates(),
        0 <= k < order.len(),
    ensures
        ({
            let report = quick_report_spec(roots, order, files);
            let owned = crate::aggregate::owned_files(roots, order, files, order[k], files.len());
            &&& report.verdict(order[k]) <==> (forbids_all(files, owned)
                && !report.packages_without_metrics.contains(order[k]))
            &&& report.packages_without_metrics.contains(order[k]) <==> owned.len() == 0
        }),
{
    let entries = package_metrics_spec(roots, order, files);
    let package = order[k];
    let owned = crate::aggregate::owned_files(roots, order, files, package, files.len());
    lemma_quick_entries(entries, files, QuickReportEntry { package, forbids_unsafe: true });
    lemma_without_metrics(entries, package);
    assert(entries[k].package == package);
    assert(entries[k].metrics == metrics_of(roots, order, files, package));
    assert forall|i: int| 0 <= i < entries.len() && (#[trigger] entries[i]).package
        == package implies i == k by {
        assert(order[i] == order[k]);
    }
}

/// A package that is not in the graph has no verdict in its favour.
pub proof fn lemma_quick_verdict_absent(
    roots: Seq<Option<Seq<char>>>,
    order: Seq<usize>,
    files: Seq<SourceFileView>,
    package: usize,
)
    requires
        !order.contains(package),
    ensures
        !quick_report_spec(roots, order, files).verdict(package),
        !quick_report_spec(roots, order, files).packages_without_metrics.contains(package),
{
    let entries = package_metrics_spec(roots, order, files);
    lemma_quick_entries(entries, files, QuickReportEntry { package, forbids_unsafe: true });
    lemma_without_metrics(entries, package);
    assert forall|i: int| 0 <= i < entries.len() implies (#[trigger] entries[i]).package
        != package by {
        assert(order[i] == entries[i].package);
    }
}

} // verus!
