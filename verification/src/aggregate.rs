//! Folding per-file metrics onto the packages of a graph.

use vstd::prelude::*;
use crate::graph::{Graph, Metadata};
use crate::metrics::{lemma_clamped_step, sum_blocks, CounterBlock};
use crate::scan::{ScanContext, SourceFileView};
use crate::text::{chars_of, is_path_under, path_under};

verus! {

/// The source roots of the packages of the metadata, by package index.
pub open spec fn source_roots(metadata: &Metadata) -> Seq<Option<Seq<char>>> {
    Seq::new(metadata.nodes@.len(), |i: int| metadata.packages()[i].source_root)
}

/// Whether `path` lies under the source root of `package`. A package without
/// a source root has no file under it.
pub open spec fn lies_under(roots: Seq<Option<Seq<char>>>, package: int, path: Seq<char>) -> bool {
    &&& 0 <= package < roots.len()
    &&& roots[package] matches Some(root)
    &&& path_under(root, path)
}

/// Length of the source root of `package`; 0 without one.
pub open spec fn root_len(roots: Seq<Option<Seq<char>>>, package: int) -> nat {
    if 0 <= package < roots.len() {
        match roots[package] {
            Some(root) => root.len(),
            None => 0,
        }
    } else {
        0
    }
}

/// The package among `order` that owns the file at `path`: the one with the
/// longest source root that `path` lies under, and of several with roots of
/// that length the first in `order`. Nothing when `path` lies under no root.
pub open spec fn owner_among(roots: Seq<Option<Seq<char>>>, order: Seq<usize>, path: Seq<char>) -> Option<
    usize,
>
    decreases order.len(),
{
    if order.len() == 0 {
        None
    } else {
        let earlier = owner_among(roots, order.drop_last(), path);
        let candidate = order.last();
        if lies_under(roots, candidate as int, path) && (earlier matches Some(best) ==> root_len(
            roots,
            candidate as int,
        ) > root_len(roots, best as int)) {
            Some(candidate)
        } else {
            earlier
        }
    }
}

/// The owner is one of the packages, the path lies under its root, and no
/// package has a longer root that the path lies under. Without an owner the
/// path lies under no package's root.
pub proof fn lemma_owner_longest(roots: Seq<Option<Seq<char>>>, order: Seq<usize>, path: Seq<char>)
    ensures
        match owner_among(roots, order, path) {
            Some(owner) => {
                &&& order.contains(owner)
                &&& lies_under(roots, owner as int, path)
                &&& forall|k: int|
                    0 <= k < order.len() && lies_under(roots, #[trigger] order[k] as int, path)
                        ==> root_len(roots, order[k] as int) <= root_len(roots, owner as int)
            },
            None => forall|k: int|
                0 <= k < order.len() ==> !lies_under(roots, #[trigger] order[k] as int, path),
        },
    decreases order.len(),
{
    if order.len() > 0 {
        let shorter = order.drop_last();
        lemma_owner_longest(roots, shorter, path);
        assert forall|k: int| 0 <= k < shorter.len() implies shorter[k] == order[k] by {}
        match owner_among(roots, order, path) {
            Some(owner) => {
                if owner == order.last() {
                    assert(order[order.len() - 1] == owner);
                } else {
                    let k = choose|k: int| 0 <= k < shorter.len() && shorter[k] == owner;
                    assert(order[k] == owner);
                }
                assert forall|k: int|
                    0 <= k < order.len() && lies_under(
                        roots,
                        #[trigger] order[k] as int,
                        path,
                    ) implies root_len(roots, order[k] as int) <= root_len(roots, owner as int) by {
                    if k < shorter.len() {
                        assert(shorter[k] == order[k]);
                    }
                }
            },
            None => {
                assert forall|k: int| 0 <= k < order.len() implies !lies_under(
                    roots,
                    #[trigger] order[k] as int,
                    path,
                ) by {
                    if k < shorter.len() {
                        assert(shorter[k] == order[k]);
                    }
                }
            },
        }
    }
}

/// The indices, among the first `count` files, of the files that `package` owns.
pub open spec fn owned_files(
    roots: Seq<Option<Seq<char>>>,
    order: Seq<usize>,
    files: Seq<SourceFileView>,
    package: usize,
    count: nat,
) -> Seq<usize>
    decreases count,
{
    if count == 0 || count > files.len() {
        Seq::empty()
    } else {
        let earlier = owned_files(roots, order, files, package, (count - 1) as nat);
        if owner_among(roots, order, files[count - 1].path) == Some(package) {
            earlier.push((count - 1) as usize)
        } else {
            earlier
        }
    }
}

/// The owned files are among the files looked at, in rising order.
pub proof fn lemma_owned_in_range(
    roots: Seq<Option<Seq<char>>>,
    order: Seq<usize>,
    files: Seq<SourceFileView>,
    package: usize,
    count: nat,
)
    requires
        files.len() <= usize::MAX,
    ensures
        forall|j: int|
            0 <= j < owned_files(roots, order, files, package, count).len() ==> (#[trigger] owned_files(
                roots,
                order,
                files,
                package,
                count,
            )[j]) < count && owned_files(roots, order, files, package, count)[j] < files.len(),
        forall|j: int|
            0 <= j < owned_files(roots, order, files, package, count).len() ==> owner_among(
                roots,
                order,
                files[(#[trigger] owned_files(roots, order, files, package, count)[j]) as int].path,
            ) == Some(package),
    decreases count,
{
    if count > 0 && count <= files.len() {
        lemma_owned_in_range(roots, order, files, package, (count - 1) as nat);
        let now = owned_files(roots, order, files, package, count);
        let earlier = owned_files(roots, order, files, package, (count - 1) as nat);
        assert forall|j: int| 0 <= j < now.len() implies (#[trigger] now[j]) < count && now[j]
            < files.len() && owner_among(roots, order, files[now[j] as int].path) == Some(
            package,
        ) by {
            if j < earlier.len() {
                assert(now[j] == earlier[j]);
            }
        }
    }
}

/// The counters of the files at `indices`.
pub open spec fn counters_at(files: Seq<SourceFileView>, indices: Seq<usize>) -> Seq<CounterBlock> {
    Seq::new(indices.len(), |j: int| files[indices[j] as int].counters)
}

/// Taking one index out of a sequence takes the counters of its file out of the sum.
pub proof fn lemma_sum_at_remove(files: Seq<SourceFileView>, indices: Seq<usize>, i: int)
    requires
        0 <= i < indices.len(),
    ensures
        sum_blocks(counters_at(files, indices)) == sum_blocks(
            counters_at(files, indices.remove(i)),
        ).plus(files[indices[i] as int].counters.total()),
{
    crate::metrics::lemma_sum_remove(counters_at(files, indices), i);
    assert(counters_at(files, indices).remove(i) =~= counters_at(files, indices.remove(i)));
}

/// The total of a package does not depend on the order in which its files are
/// taken: two listings of the same files give the same sum.
pub proof fn lemma_total_any_order(
    files: Seq<SourceFileView>,
    first: Seq<usize>,
    second: Seq<usize>,
)
    requires
        first.to_multiset() == second.to_multiset(),
    ensures
        sum_blocks(counters_at(files, first)) == sum_blocks(counters_at(files, second)),
    decreases first.len(),
{
    first.to_multiset_ensures();
    second.to_multiset_ensures();
    if first.len() == 0 {
        assert(counters_at(files, first) =~= counters_at(files, second));
    } else {
        let last = first.last();
        assert(first.contains(last));
        assert(second.to_multiset().count(last) > 0);
        assert(second.contains(last));
        let i = choose|i: int| 0 <= i < second.len() && second[i] == last;
        assert(first.drop_last() =~= first.remove(first.len() - 1));
        assert(first.drop_last().to_multiset() =~= second.remove(i).to_multiset());
        lemma_total_any_order(files, first.drop_last(), second.remove(i));
        lemma_sum_at_remove(files, second, i);
        lemma_sum_at_remove(files, first, first.len() - 1);
    }
}

/// What the scan found of one package.
#[derive(Debug)]
pub struct PackageMetrics {
    /// The files that the package owns, as indices into the files of the scan,
    /// in discovery order.
    pub files: Vec<usize>,
    /// The sum of their counters.
    pub total: CounterBlock,
}

/// Mathematical content of [`PackageMetrics`].
pub struct PackageMetricsView {
    pub files: Seq<usize>,
    pub total: CounterBlock,
}

impl View for PackageMetrics {
    type V = PackageMetricsView;

    open spec fn view(&self) -> PackageMetricsView {
        PackageMetricsView { files: self.files@, total: self.total }
    }
}

/// A package of the graph with its metrics; without metrics when it owns no
/// scanned file, which is not the same as owning files that are free of unsafe
/// constructs.
#[derive(Debug)]
pub struct PackageEntry {
    /// Index of the package.
    pub package: usize,
    pub metrics: Option<PackageMetrics>,
}

/// Mathematical content of [`PackageEntry`].
pub struct PackageEntryView {
    pub package: usize,
    pub metrics: Option<PackageMetricsView>,
}

impl View for PackageEntry {
    type V = PackageEntryView;

    open spec fn view(&self) -> PackageEntryView {
        PackageEntryView {
            package: self.package,
            metrics: match self.metrics {
                Some(m) => Some(m@),
                None => None,
            },
        }
    }
}

/// The contents of a sequence of entries.
pub open spec fn entry_views(entries: Seq<PackageEntry>) -> Seq<PackageEntryView> {
    Seq::new(entries.len(), |i: int| entries[i]@)
}

/// The metrics of `package`: the files it owns and the sum of their counters,
/// each number clamped to what can be stored; nothing when it owns no file.
pub open spec fn metrics_of(
    roots: Seq<Option<Seq<char>>>,
    order: Seq<usize>,
    files: Seq<SourceFileView>,
    package: usize,
) -> Option<PackageMetricsView> {
    let owned = owned_files(roots, order, files, package, files.len());
    if owned.len() == 0 {
        None
    } else {
        Some(
            PackageMetricsView {
                files: owned,
                total: sum_blocks(counters_at(files, owned)).clamped(),
            },
        )
    }
}

/// The entries of the packages `order`, one each and in that order.
pub open spec fn package_metrics_spec(
    roots: Seq<Option<Seq<char>>>,
    order: Seq<usize>,
    files: Seq<SourceFileView>,
) -> Seq<PackageEntryView> {
    Seq::new(
        order.len(),
        |k: int| PackageEntryView { package: order[k], metrics: metrics_of(roots, order, files, order[k]) },
    )
}

/// The characters of each source root.
fn root_chars(metadata: &Metadata) -> (roots: Vec<Option<Vec<char>>>)
    ensures
        roots.len() == metadata.nodes@.len(),
        forall|i: int|
            0 <= i < roots.len() ==> match #[trigger] roots[i] {
                Some(root) => source_roots(metadata)[i] == Some(root@),
                None => source_roots(metadata)[i] is None,
            },
{
    let mut roots: Vec<Option<Vec<char>>> = Vec::new();
    let mut i: usize = 0;
    while i < metadata.nodes.len()
        invariant
            i <= metadata.nodes.len(),
            roots.len() == i,
            forall|k: int|
                0 <= k < i ==> match #[trigger] roots[k] {
                    Some(root) => source_roots(metadata)[k] == Some(root@),
                    None => source_roots(metadata)[k] is None,
                },
        decreases metadata.nodes.len() - i,
    {
        let root = match &metadata.nodes[i].package.source_root {
            Some(text) => Some(chars_of(text.as_str())),
            None => None,
        };
        roots.push(root);
        i = i + 1;
    }
    roots
}

/// Finds the package that owns the file at `path`.
fn find_owner(
    metadata: &Metadata,
    roots: &Vec<Option<Vec<char>>>,
    order: &Vec<usize>,
    path: &Vec<char>,
) -> (owner: Option<usize>)
    requires
        roots.len() == metadata.nodes@.len(),
        forall|i: int|
            0 <= i < roots.len() ==> match #[trigger] roots[i] {
                Some(root) => source_roots(metadata)[i] == Some(root@),
                None => source_roots(metadata)[i] is None,
            },
        forall|k: int| 0 <= k < order.len() ==> #[trigger] order[k] < roots.len(),
    ensures
        owner == owner_among(source_roots(metadata), order@, path@),
        owner matches Some(package) ==> package < roots.len(),
{
    let ghost texts = source_roots(metadata);
    let mut best: Option<usize> = None;
    let mut best_len: usize = 0;
    let mut k: usize = 0;
    assert(order@.take(0) =~= Seq::empty());
    while k < order.len()
        invariant
            k <= order.len(),
            texts == source_roots(metadata),
            roots.len() == metadata.nodes@.len(),
            forall|i: int|
                0 <= i < roots.len() ==> match #[trigger] roots[i] {
                    Some(root) => texts[i] == Some(root@),
                    None => texts[i] is None,
                },
            forall|j: int| 0 <= j < order.len() ==> #[trigger] order[j] < roots.len(),
            best == owner_among(texts, order@.take(k as int), path@),
            best matches Some(package) ==> package < roots.len() && best_len == root_len(
                texts,
                package as int,
            ),
        decreases order.len() - k,
    {
        proof {
            let next = order@.take(k + 1);
            assert(next.drop_last() =~= order@.take(k as int));
            assert(next.last() == order@[k as int]);
        }
        let candidate = order[k];
        match &roots[candidate] {
            Some(root) => {
                if is_path_under(root, path) && (best.is_none() || root.len() > best_len) {
                    best = Some(candidate);
                    best_len = root.len();
                }
            },
            None => {},
        }
        k = k + 1;
    }
    assert(order@.take(k as int) =~= order@);
    best
}

/// Folds the per-file metrics of a scan onto the packages of a graph.
///
/// There is one entry for each package of the graph, in the graph's order.
/// A file belongs to the package of the graph with the longest source root
/// that the file lies under. A package that owns no scanned file gets an entry
/// without metrics.
pub fn package_metrics(metadata: &Metadata, graph: &Graph, context: &ScanContext) -> (entries: Vec<
    PackageEntry,
>)
    requires
        graph@.links.len() == metadata.nodes@.len(),
    ensures
        entry_views(entries@) == package_metrics_spec(
            source_roots(metadata),
            graph@.order,
            context@.files,
        ),
{
    let order = graph.nodes();
    let files = context.files();
    let roots = root_chars(metadata);
    let ghost texts = source_roots(metadata);
    let ghost views = context@.files;
    let mut owners: Vec<Option<usize>> = Vec::new();
    let mut i: usize = 0;
    while i < files.len()
        invariant
            i <= files.len(),
            owners.len() == i,
            texts == source_roots(metadata),
            views == context@.files,
            crate::scan::file_views(files@) == views,
            order@ == graph@.order,
            graph@.wf(),
            graph@.links.len() == metadata.nodes@.len(),
            roots.len() == metadata.nodes@.len(),
            forall|i: int|
                0 <= i < roots.len() ==> match #[trigger] roots[i] {
                    Some(root) => texts[i] == Some(root@),
                    None => texts[i] is None,
                },
            forall|k: int|
                0 <= k < i ==> #[trigger] owners[k] == owner_among(texts, order@, views[k].path),
        decreases files.len() - i,
    {
        let path = chars_of(files[i].path.as_str());
        assert(views[i as int] == files@[i as int]@);
        let owner = find_owner(metadata, &roots, order, &path);
        owners.push(owner);
        i = i + 1;
    }
    let mut entries: Vec<PackageEntry> = Vec::new();
    let mut k: usize = 0;
    while k < order.len()
        invariant
            k <= order.len(),
            entries.len() == k,
            owners.len() == files.len(),
            views.len() == files.len(),
            crate::scan::file_views(files@) == views,
            forall|j: int|
                0 <= j < owners.len() ==> #[trigger] owners[j] == owner_among(
                    texts,
                    order@,
                    views[j].path,
                ),
            forall|j: int|
                0 <= j < k ==> (#[trigger] entries[j])@ == (PackageEntryView {
                    package: order@[j],
                    metrics: metrics_of(texts, order@, views, order@[j]),
                }),
        decreases order.len() - k,
    {
        let package = order[k];
        let mut owned: Vec<usize> = Vec::new();
        let mut total = CounterBlock::new();
        let mut j: usize = 0;
        assert(counters_at(views, owned@) =~= Seq::empty());
        while j < files.len()
            invariant
                j <= files.len(),
                owners.len() == files.len(),
                views.len() == files.len(),
                crate::scan::file_views(files@) == views,
                forall|i: int|
                    0 <= i < owners.len() ==> #[trigger] owners[i] == owner_among(
                        texts,
                        order@,
                        views[i].path,
                    ),
                owned@ == owned_files(texts, order@, views, package, j as nat),
                forall|i: int| 0 <= i < owned.len() ==> #[trigger] owned[i] < files.len(),
                total == sum_blocks(counters_at(views, owned@)).clamped(),
            decreases files.len() - j,
        {
            let mine = match owners[j] {
                Some(owner) => owner == package,
                None => false,
            };
            if mine {
                proof {
                    let before = counters_at(views, owned@);
                    let after = counters_at(views, owned@.push(j));
                    assert(after.drop_last() =~= before);
                    assert(after.last() == views[j as int].counters);
                    assert(views[j as int] == files@[j as int]@);
                    lemma_clamped_step(sum_blocks(before), files@[j as int].counters);
                }
                total = total.saturating_add(&files[j].counters);
                owned.push(j);
            }
            j = j + 1;
        }
        let metrics = if owned.len() == 0 {
            None
        } else {
            Some(PackageMetrics { files: owned, total })
        };
        entries.push(PackageEntry { package, metrics });
        k = k + 1;
    }
    assert(entry_views(entries@) =~= package_metrics_spec(texts, order@, views));
    entries
}

} // verus!
