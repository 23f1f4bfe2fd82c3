//! Scanning source files: counting constructs in one file, and the worklist
//! that visits every file of a package once.

use vstd::prelude::*;
use crate::metrics::{CounterBlock, Count};
use crate::text::{same_text, texts};

verus! {

/// How thoroughly the sources are scanned.
#[derive(Clone, Copy, Debug, PartialEq, Eq, Structural)]
pub enum ScanMode {
    /// Every file reached from the entry files is parsed and counted.
    Full,
    /// Only the entry files are looked at, and only for the disabling directive.
    EntryPointsOnly,
}

/// What a walk over a parsed source file meets, in source order. Every `Enter…`
/// is closed by a `Leave`.
#[derive(Clone, Copy, Debug, PartialEq, Eq, Structural)]
pub enum SyntaxEvent {
    /// A free function begins; `escape` tells whether it is escape-qualified.
    EnterFunction { escape: bool },
    /// A method begins.
    EnterMethod { escape: bool },
    /// A trait implementation begins.
    EnterImpl { escape: bool },
    /// A trait declaration begins.
    EnterTrait { escape: bool },
    /// An escape block begins.
    EnterEscapeBlock,
    /// Code that is built for tests only begins.
    EnterTest,
    /// An expression.
    Expression,
    /// The innermost open function, method, implementation, trait, block or
    /// test code ends.
    Leave,
    /// A directive that disables the escape construct for the scope it stands in.
    ForbidDirective,
    /// A directive that re-enables the escape construct for the scope it stands in.
    AllowOverride,
}

/// What the scan of one file found.
#[derive(Clone, Copy, Debug, PartialEq, Eq, Structural)]
pub struct FileSummary {
    pub counters: CounterBlock,
    /// Whether the file disables the escape construct for all of itself and
    /// re-enables it nowhere.
    pub forbids_escape: bool,
}

/// An open scope as the walk sees it.
#[derive(Clone, Copy, Debug, PartialEq, Eq, Structural)]
pub struct Scope {
    /// Whether the scope is an escape scope or lies inside one.
    pub escape: bool,
    /// Whether the scope is test code or lies inside test code.
    pub test: bool,
}

/// The state of a walk over a file's events.
pub struct Tally {
    /// The open scopes, outermost first.
    pub scopes: Seq<Scope>,
    pub counters: CounterBlock,
    /// Whether a disabling directive was met outside every scope.
    pub forbid: bool,
    /// Whether a re-enabling directive was met.
    pub overridden: bool,
    /// Whether a `Leave` was met with no scope open.
    pub malformed: bool,
}

impl Tally {
    pub open spec fn start() -> Tally {
        Tally {
            scopes: Seq::empty(),
            counters: CounterBlock::zero(),
            forbid: false,
            overridden: false,
            malformed: false,
        }
    }

    /// Whether the walk stands inside an escape scope.
    pub open spec fn active(self) -> bool {
        self.scopes.len() > 0 && self.scopes.last().escape
    }

    /// Whether the walk stands inside test code.
    pub open spec fn in_test(self) -> bool {
        self.scopes.len() > 0 && self.scopes.last().test
    }

    /// The state with one more scope open.
    pub open spec fn entered(self, escape: bool, test: bool) -> Tally {
        Tally {
            scopes: self.scopes.push(
                Scope { escape: escape || self.active(), test: test || self.in_test() },
            ),
            ..self
        }
    }

    /// The count after an occurrence at this place: it is counted unless it
    /// stands in test code that is left out, and it counts as unsafe when it
    /// is escape-qualified itself or stands inside an escape scope.
    pub open spec fn tallied(self, count: Count, escape: bool, include_tests: bool) -> Count {
        if include_tests || !self.in_test() {
            count.counted(escape || self.active())
        } else {
            count
        }
    }

    /// The state after `event`.
    pub open spec fn step(self, event: SyntaxEvent, include_tests: bool) -> Tally {
        match event {
            SyntaxEvent::EnterFunction { escape } => Tally {
                counters: CounterBlock {
                    functions: self.tallied(self.counters.functions, escape, include_tests),
                    ..self.counters
                },
                ..self.entered(escape, false)
            },
            SyntaxEvent::EnterMethod { escape } => Tally {
                counters: CounterBlock {
                    methods: self.tallied(self.counters.methods, escape, include_tests),
                    ..self.counters
                },
                ..self.entered(escape, false)
            },
            SyntaxEvent::EnterImpl { escape } => Tally {
                counters: CounterBlock {
                    item_impls: self.tallied(self.counters.item_impls, escape, include_tests),
                    ..self.counters
                },
                ..self.entered(escape, false)
            },
            SyntaxEvent::EnterTrait { escape } => Tally {
                counters: CounterBlock {
                    item_traits: self.tallied(self.counters.item_traits, escape, include_tests),
                    ..self.counters
                },
                ..self.entered(escape, false)
            },
            SyntaxEvent::EnterEscapeBlock => self.entered(true, false),
            SyntaxEvent::EnterTest => self.entered(false, true),
            SyntaxEvent::Expression => Tally {
                counters: CounterBlock {
                    exprs: self.tallied(self.counters.exprs, false, include_tests),
                    ..self.counters
                },
                ..self
            },
            SyntaxEvent::Leave => if self.scopes.len() == 0 {
                Tally { malformed: true, ..self }
            } else {
                Tally { scopes: self.scopes.drop_last(), ..self }
            },
            SyntaxEvent::ForbidDirective => if self.scopes.len() == 0 {
                Tally { forbid: true, ..self }
            } else {
                self
            },
            SyntaxEvent::AllowOverride => Tally { overridden: true, ..self },
        }
    }

    /// What the walk found, when every scope was closed and none was closed
    /// that was not open.
    pub open spec fn summary(self) -> Option<FileSummary> {
        if self.malformed || self.scopes.len() > 0 {
            None
        } else {
            Some(
                FileSummary {
                    counters: self.counters,
                    forbids_escape: self.forbid && !self.overridden,
                },
            )
        }
    }
}

/// The state after all of `events`; `include_tests` tells whether what stands
/// in test code is counted.
pub open spec fn tally(events: Seq<SyntaxEvent>, include_tests: bool) -> Tally
    decreases events.len(),
{
    if events.len() == 0 {
        Tally::start()
    } else {
        tally(events.drop_last(), include_tests).step(events.last(), include_tests)
    }
}

/// What a file with the events `events` is summarised as; nothing when the
/// events do not nest properly.
pub open spec fn summary_of(events: Seq<SyntaxEvent>, include_tests: bool) -> Option<FileSummary> {
    tally(events, include_tests).summary()
}

/// Whether no number of `a` is larger than the same number of `b`.
pub open spec fn block_le(a: CounterBlock, b: CounterBlock) -> bool {
    &&& a.functions.safe <= b.functions.safe
    &&& a.functions.unsafe_ <= b.functions.unsafe_
    &&& a.exprs.safe <= b.exprs.safe
    &&& a.exprs.unsafe_ <= b.exprs.unsafe_
    &&& a.item_impls.safe <= b.item_impls.safe
    &&& a.item_impls.unsafe_ <= b.item_impls.unsafe_
    &&& a.item_traits.safe <= b.item_traits.safe
    &&& a.item_traits.unsafe_ <= b.item_traits.unsafe_
    &&& a.methods.safe <= b.methods.safe
    &&& a.methods.unsafe_ <= b.methods.unsafe_
}

/// One event makes no number smaller.
pub proof fn lemma_step_monotone(before: Tally, event: SyntaxEvent, include_tests: bool)
    ensures
        block_le(before.counters, before.step(event, include_tests).counters),
{
    let f = before.counters.functions;
    let e = before.counters.exprs;
    let i = before.counters.item_impls;
    let t = before.counters.item_traits;
    let m = before.counters.methods;
    assert forall|c: Count, escape: bool|
        c.safe <= (#[trigger] before.tallied(c, escape, include_tests)).safe && c.unsafe_
            <= before.tallied(c, escape, include_tests).unsafe_ by {}
    match event {
        SyntaxEvent::EnterFunction { escape } => {
            assert(before.tallied(f, escape, include_tests).safe >= f.safe);
        },
        SyntaxEvent::EnterMethod { escape } => {
            assert(before.tallied(m, escape, include_tests).safe >= m.safe);
        },
        SyntaxEvent::EnterImpl { escape } => {
            assert(before.tallied(i, escape, include_tests).safe >= i.safe);
        },
        SyntaxEvent::EnterTrait { escape } => {
            assert(before.tallied(t, escape, include_tests).safe >= t.safe);
        },
        SyntaxEvent::Expression => {
            assert(before.tallied(e, false, include_tests).safe >= e.safe);
        },
        _ => {},
    }
}

/// Counts only grow during a scan: after more events no number is smaller.
pub proof fn lemma_tally_monotone(events: Seq<SyntaxEvent>, include_tests: bool, seen: int)
    requires
        0 <= seen <= events.len(),
    ensures
        block_le(
            tally(events.take(seen), include_tests).counters,
            tally(events, include_tests).counters,
        ),
    decreases events.len(),
{
    if seen == events.len() {
        assert(events.take(seen) =~= events);
    } else {
        lemma_tally_monotone(events.drop_last(), include_tests, seen);
        assert(events.drop_last().take(seen) =~= events.take(seen));
        lemma_step_monotone(tally(events.drop_last(), include_tests), events.last(), include_tests);
    }
}

/// Without an escape-qualified item and without an escape block nothing is
/// counted as unsafe.
pub proof fn lemma_no_escape_no_unsafe(events: Seq<SyntaxEvent>, include_tests: bool)
    requires
        forall|i: int|
            0 <= i < events.len() ==> (#[trigger] events[i] matches SyntaxEvent::EnterFunction {
                escape,
            } ==> !escape) && (events[i] matches SyntaxEvent::EnterMethod { escape } ==> !escape)
                && (events[i] matches SyntaxEvent::EnterImpl { escape } ==> !escape) && (
            events[i] matches SyntaxEvent::EnterTrait { escape } ==> !escape) && events[i]
                != SyntaxEvent::EnterEscapeBlock,
    ensures
        tally(events, include_tests).counters.total().unsafe_all() == 0,
        forall|k: int|
            0 <= k < tally(events, include_tests).scopes.len() ==> !tally(
                events,
                include_tests,
            ).scopes[k].escape,
    decreases events.len(),
{
    if events.len() > 0 {
        let before = events.drop_last();
        assert forall|i: int| 0 <= i < before.len() implies (#[trigger] before[i] matches SyntaxEvent::EnterFunction {
            escape,
        } ==> !escape) && (before[i] matches SyntaxEvent::EnterMethod { escape } ==> !escape)
            && (before[i] matches SyntaxEvent::EnterImpl { escape } ==> !escape) && (
        before[i] matches SyntaxEvent::EnterTrait { escape } ==> !escape) && before[i]
            != SyntaxEvent::EnterEscapeBlock by {
            assert(before[i] == events[i]);
        }
        lemma_no_escape_no_unsafe(before, include_tests);
        let event = events.last();
        assert(event == events[events.len() - 1]);
    }
}

/// Counts the constructs of a file from the events of a walk over it. What
/// stands in test code is counted only when `include_tests` is set.
///
/// Returns nothing when the events do not nest properly.
pub fn summarize(events: &Vec<SyntaxEvent>, include_tests: bool) -> (summary: Option<FileSummary>)
    ensures
        summary == summary_of(events@, include_tests),
{
    let mut scopes: Vec<Scope> = Vec::new();
    let mut counters = CounterBlock::new();
    let mut forbid = false;
    let mut overridden = false;
    let mut malformed = false;
    let mut i: usize = 0;
    assert(events@.take(0) =~= Seq::empty());
    while i < events.len()
        invariant
            i <= events.len(),
            tally(events@.take(i as int), include_tests) == (Tally {
                scopes: scopes@,
                counters,
                forbid,
                overridden,
                malformed,
            }),
        decreases events.len() - i,
    {
        proof {
            let next = events@.take(i + 1);
            assert(next.drop_last() =~= events@.take(i as int));
            assert(next.last() == events@[i as int]);
        }
        let active = scopes.len() > 0 && scopes[scopes.len() - 1].escape;
        let in_test = scopes.len() > 0 && scopes[scopes.len() - 1].test;
        let counted = include_tests || !in_test;
        match events[i] {
            SyntaxEvent::EnterFunction { escape } => {
                if counted {
                    counters.functions.count(escape || active);
                }
                scopes.push(Scope { escape: escape || active, test: in_test });
            },
            SyntaxEvent::EnterMethod { escape } => {
                if counted {
                    counters.methods.count(escape || active);
                }
                scopes.push(Scope { escape: escape || active, test: in_test });
            },
            SyntaxEvent::EnterImpl { escape } => {
                if counted {
                    counters.item_impls.count(escape || active);
                }
                scopes.push(Scope { escape: escape || active, test: in_test });
            },
            SyntaxEvent::EnterTrait { escape } => {
                if counted {
                    counters.item_traits.count(escape || active);
                }
                scopes.push(Scope { escape: escape || active, test: in_test });
            },
            SyntaxEvent::EnterEscapeBlock => {
                scopes.push(Scope { escape: true, test: in_test });
            },
            SyntaxEvent::EnterTest => {
                scopes.push(Scope { escape: active, test: true });
            },
            SyntaxEvent::Expression => {
                if counted {
                    counters.exprs.count(active);
                }
            },
            SyntaxEvent::Leave => {
                if scopes.len() == 0 {
                    malformed = true;
                } else {
                    scopes.pop();
                }
            },
            SyntaxEvent::ForbidDirective => {
                if scopes.len() == 0 {
                    forbid = true;
                }
            },
            SyntaxEvent::AllowOverride => {
                overridden = true;
            },
        }
        i = i + 1;
    }
    assert(events@.take(i as int) =~= events@);
    if malformed || scopes.len() > 0 {
        None
    } else {
        Some(FileSummary { counters, forbids_escape: forbid && !overridden })
    }
}

/// What the scan recorded of one source file.
#[derive(Debug)]
pub struct SourceFileMetrics {
    /// Canonical path of the file.
    pub path: String,
    pub counters: CounterBlock,
    pub forbids_escape: bool,
}

/// Mathematical content of [`SourceFileMetrics`].
pub struct SourceFileView {
    pub path: Seq<char>,
    pub counters: CounterBlock,
    pub forbids_escape: bool,
}

impl View for SourceFileMetrics {
    type V = SourceFileView;

    open spec fn view(&self) -> SourceFileView {
        SourceFileView {
            path: self.path@,
            counters: self.counters,
            forbids_escape: self.forbids_escape,
        }
    }
}

/// The contents of a sequence of file records.
pub open spec fn file_views(files: Seq<SourceFileMetrics>) -> Seq<SourceFileView> {
    Seq::new(files.len(), |i: int| files[i]@)
}

/// Mathematical content of a [`ScanContext`].
pub struct ScanContextView {
    /// The files that were scanned, in the order they were recorded.
    pub files: Seq<SourceFileView>,
    /// The paths of the files that could not be parsed.
    pub failed: Seq<Seq<char>>,
    /// How many macro expansions were left out because their origin is unknown.
    pub untraceable: u64,
}

impl ScanContextView {
    /// Whether a file with this path was scanned.
    pub open spec fn has_path(self, path: Seq<char>) -> bool {
        exists|i: int| 0 <= i < self.files.len() && (#[trigger] self.files[i]).path == path
    }

    /// The paths of the files that were scanned.
    pub open spec fn visited_paths(self) -> Set<Seq<char>> {
        Set::new(|path: Seq<char>| self.has_path(path))
    }

    /// No path was recorded twice.
    pub open spec fn wf(self) -> bool {
        forall|i: int, j: int|
            0 <= i < self.files.len() && 0 <= j < self.files.len() && i != j ==> (
            #[trigger] self.files[i]).path != (#[trigger] self.files[j]).path
    }

    /// The context after the counters of expanded code were taken in. They are
    /// added to the counters of the file that the code comes from; expanded
    /// code that comes from no scanned file is left out and counted as such.
    pub open spec fn attributed(self, origin: Option<Seq<char>>, counters: CounterBlock) -> ScanContextView {
        if origin is Some && self.has_path(origin->Some_0) {
            let i = choose|i: int|
                0 <= i < self.files.len() && (#[trigger] self.files[i]).path == origin->Some_0;
            ScanContextView {
                files: self.files.update(
                    i,
                    SourceFileView {
                        counters: self.files[i].counters.saturating_add_spec(counters),
                        ..self.files[i]
                    },
                ),
                ..self
            }
        } else {
            ScanContextView {
                untraceable: crate::metrics::clamp(self.untraceable as nat + 1),
                ..self
            }
        }
    }

    /// The context after `file` was recorded: a file whose path is already
    /// there is not recorded again.
    pub open spec fn recorded(self, file: SourceFileView) -> ScanContextView {
        if self.has_path(file.path) {
            self
        } else {
            ScanContextView { files: self.files.push(file), ..self }
        }
    }
}

/// The result of a scan: per-file metrics in discovery order, each path once,
/// and the files that failed to parse.
#[derive(Debug)]
pub struct ScanContext {
    files: Vec<SourceFileMetrics>,
    failed: Vec<String>,
    untraceable: u64,
}

impl View for ScanContext {
    type V = ScanContextView;

    closed spec fn view(&self) -> ScanContextView {
        ScanContextView {
            files: file_views(self.files@),
            failed: texts(self.failed@),
            untraceable: self.untraceable,
        }
    }
}

impl ScanContext {
    /// A context without files.
    pub fn new() -> (context: ScanContext)
        ensures
            context@.files.len() == 0,
            context@.failed.len() == 0,
            context@.untraceable == 0,
            context@.wf(),
    {
        ScanContext { files: Vec::new(), failed: Vec::new(), untraceable: 0 }
    }

    /// How many macro expansions were left out because their origin is unknown.
    pub fn untraceable(&self) -> (count: u64)
        ensures
            count == self@.untraceable,
    {
        self.untraceable
    }

    /// The position of the file with this path among the scanned files.
    fn position(&self, path: &str) -> (found: Option<usize>)
        ensures
            match found {
                Some(i) => i < self@.files.len() && self@.files[i as int].path == path@,
                None => !self@.has_path(path@),
            },
    {
        let mut i: usize = 0;
        while i < self.files.len()
            invariant
                i <= self.files.len(),
                forall|k: int| 0 <= k < i ==> (#[trigger] self@.files[k]).path != path@,
            decreases self.files.len() - i,
        {
            if same_text(self.files[i].path.as_str(), path) {
                assert(self@.files[i as int].path == path@);
                return Some(i);
            }
            i = i + 1;
        }
        None
    }

    /// Takes in the counters of code that a macro expansion produced. With a
    /// scanned file as origin the counters are added to that file's; otherwise
    /// the expansion is left out and counted as untraceable. Tells whether the
    /// counters were attributed.
    pub fn record_expansion(&mut self, origin: Option<&str>, counters: &CounterBlock) -> (attributed:
        bool)
        requires
            old(self)@.wf(),
        ensures
            attributed == (origin is Some && old(self)@.has_path(origin->Some_0@)),
            final(self)@ == old(self)@.attributed(
                match origin {
                    Some(path) => Some(path@),
                    None => None,
                },
                *counters,
            ),
            final(self)@.wf(),
    {
        let found = match origin {
            Some(path) => self.position(path),
            None => None,
        };
        let ghost before = self@;
        match found {
            Some(i) => {
                let sum = self.files[i].counters.saturating_add(counters);
                self.files[i].counters = sum;
                proof {
                    let chosen = choose|k: int|
                        0 <= k < before.files.len() && (#[trigger] before.files[k]).path
                            == origin->Some_0@;
                    assert(before.files[i as int].path == origin->Some_0@);
                    assert(chosen == i);
                    assert(self@.files =~= before.files.update(
                        i as int,
                        SourceFileView {
                            counters: before.files[i as int].counters.saturating_add_spec(*counters),
                            ..before.files[i as int]
                        },
                    ));
                    assert(self@.failed == before.failed);
                }
                true
            },
            None => {
                self.untraceable = self.untraceable.saturating_add(1);
                proof {
                    assert(self@.files == before.files);
                    assert(self@.failed == before.failed);
                }
                false
            },
        }
    }

    /// The files that were scanned, in the order they were recorded.
    pub fn files(&self) -> (files: &Vec<SourceFileMetrics>)
        ensures
            file_views(files@) == self@.files,
    {
        &self.files
    }

    /// The paths of the files that could not be parsed.
    pub fn parse_errors(&self) -> (failed: &Vec<String>)
        ensures
            texts(failed@) == self@.failed,
    {
        &self.failed
    }

    /// Tells whether a file with this path was scanned.
    pub fn has_path(&self, path: &str) -> (found: bool)
        ensures
            found == self@.has_path(path@),
    {
        let mut i: usize = 0;
        while i < self.files.len()
            invariant
                i <= self.files.len(),
                forall|k: int| 0 <= k < i ==> (#[trigger] self@.files[k]).path != path@,
            decreases self.files.len() - i,
        {
            if same_text(self.files[i].path.as_str(), path) {
                assert(self@.files[i as int].path == path@);
                return true;
            }
            i = i + 1;
        }
        false
    }

    /// Records the metrics of a file, unless its path was recorded before.
    /// Tells whether the file was recorded.
    pub fn record(&mut self, file: SourceFileMetrics) -> (added: bool)
        requires
            old(self)@.wf(),
        ensures
            added == !old(self)@.has_path(file@.path),
            final(self)@ == old(self)@.recorded(file@),
            final(self)@.wf(),
    {
        if self.has_path(file.path.as_str()) {
            false
        } else {
            let ghost before = self@;
            self.files.push(file);
            proof {
                assert(self@.files =~= before.files.push(file@));
                assert(self@.failed == before.failed);
            }
            true
        }
    }

    /// Records that the file at `path` could not be parsed.
    pub fn record_failure(&mut self, path: String)
        requires
            old(self)@.wf(),
        ensures
            final(self)@ == (ScanContextView {
                failed: old(self)@.failed.push(path@),
                ..old(self)@
            }),
            final(self)@.wf(),
    {
        let ghost before = self@;
        self.failed.push(path);
        proof {
            assert(self@.failed =~= before.failed.push(path@));
            assert(self@.files == before.files);
        }
    }
}

/// The queue after `path` was scheduled: a path that is in the queue is not
/// added again.
pub open spec fn scheduled(queue: Seq<Seq<char>>, path: Seq<char>) -> Seq<Seq<char>> {
    if queue.contains(path) {
        queue
    } else {
        queue.push(path)
    }
}

/// The queue after each of `paths` was scheduled, in order.
pub open spec fn scheduled_all(queue: Seq<Seq<char>>, paths: Seq<Seq<char>>) -> Seq<Seq<char>>
    decreases paths.len(),
{
    if paths.len() == 0 {
        queue
    } else {
        scheduled(scheduled_all(queue, paths.drop_last()), paths.last())
    }
}

/// Scheduling adds to the end of the queue and nothing else: what was
/// scheduled stays in its place, the queue holds what it held and what was to
/// be scheduled, and a queue that held no path twice still holds none twice.
pub proof fn lemma_scheduled_all(queue: Seq<Seq<char>>, paths: Seq<Seq<char>>)
    ensures
        queue.len() <= scheduled_all(queue, paths).len(),
        scheduled_all(queue, paths).take(queue.len() as int) == queue,
        queue.no_duplicates() ==> scheduled_all(queue, paths).no_duplicates(),
        forall|p: Seq<char>|
            #[trigger] scheduled_all(queue, paths).contains(p) <==> (queue.contains(p)
                || paths.contains(p)),
    decreases paths.len(),
{
    if paths.len() == 0 {
        assert(queue.take(queue.len() as int) =~= queue);
    } else {
        let shorter = paths.drop_last();
        let before = scheduled_all(queue, shorter);
        let after = scheduled_all(queue, paths);
        let last = paths.last();
        lemma_scheduled_all(queue, shorter);
        assert(after.take(queue.len() as int) =~= before.take(queue.len() as int));
        assert forall|p: Seq<char>| #[trigger] after.contains(p) <==> (queue.contains(p)
            || paths.contains(p)) by {
            if paths.contains(p) {
                let k = choose|k: int| 0 <= k < paths.len() && paths[k] == p;
                if k < shorter.len() {
                    assert(shorter[k] == p);
                }
            }
            if shorter.contains(p) {
                let k = choose|k: int| 0 <= k < shorter.len() && shorter[k] == p;
                assert(paths[k] == p);
            }
            assert(paths[paths.len() - 1] == last);
            if before.contains(p) {
                let k = choose|k: int| 0 <= k < before.len() && before[k] == p;
                assert(after[k] == p);
            }
            if after.contains(p) && !before.contains(p) {
                let k = choose|k: int| 0 <= k < after.len() && after[k] == p;
                if k < before.len() {
                    assert(before[k] == p);
                }
            }
            if p == last && !before.contains(last) {
                assert(after[before.len() as int] == last);
            }
        }
    }
}

/// No file is handed out twice: the files handed out so far all differ.
pub proof fn lemma_handed_out_once(scanner: ScannerView, i: int, j: int)
    requires
        scanner.wf(),
        0 <= i < j < scanner.head,
    ensures
        scanner.queue[i] != scanner.queue[j],
{
}

/// Mathematical content of a [`Scanner`].
pub struct ScannerView {
    pub mode: ScanMode,
    /// Every path that was ever scheduled, in the order of discovery.
    pub queue: Seq<Seq<char>>,
    /// How many paths of the queue were handed out for parsing.
    pub head: int,
    pub context: ScanContextView,
}

impl ScannerView {
    /// No path is in the queue twice, so none is handed out twice.
    pub open spec fn wf(self) -> bool {
        &&& 0 <= self.head <= self.queue.len()
        &&& self.queue.no_duplicates()
        &&& self.context.wf()
    }
}

/// The worklist of a scan. The caller parses the file that the scanner hands
/// out and reports what it found; the scanner decides which files follow.
pub struct Scanner {
    mode: ScanMode,
    queue: Vec<String>,
    head: usize,
    context: ScanContext,
}

impl View for Scanner {
    type V = ScannerView;

    closed spec fn view(&self) -> ScannerView {
        ScannerView {
            mode: self.mode,
            queue: texts(self.queue@),
            head: self.head as int,
            context: self.context@,
        }
    }
}

impl Scanner {
    /// Starts a scan at the entry files of a package.
    pub fn new(mode: ScanMode, entry_files: Vec<String>) -> (scanner: Scanner)
        ensures
            scanner@.mode == mode,
            scanner@.queue == scheduled_all(Seq::empty(), texts(entry_files@)),
            scanner@.head == 0,
            scanner@.context.files.len() == 0,
            scanner@.context.failed.len() == 0,
            scanner@.context.untraceable == 0,
            scanner@.wf(),
    {
        let mut scanner = Scanner {
            mode,
            queue: Vec::new(),
            head: 0,
            context: ScanContext::new(),
        };
        assert(texts(scanner.queue@) =~= Seq::empty());
        scanner.schedule_all(&entry_files);
        scanner
    }

    /// Tells whether `path` was scheduled before.
    fn is_scheduled(&self, path: &str) -> (found: bool)
        ensures
            found == self@.queue.contains(path@),
    {
        let mut i: usize = 0;
        while i < self.queue.len()
            invariant
                i <= self.queue.len(),
                forall|k: int| 0 <= k < i ==> (#[trigger] texts(self.queue@)[k]) != path@,
            decreases self.queue.len() - i,
        {
            if same_text(self.queue[i].as_str(), path) {
                assert(texts(self.queue@)[i as int] == path@);
                return true;
            }
            i = i + 1;
        }
        false
    }

    /// Schedules each of `paths` that was not scheduled before.
    fn schedule_all(&mut self, paths: &Vec<String>)
        requires
            old(self)@.wf(),
        ensures
            final(self)@ == (ScannerView {
                queue: scheduled_all(old(self)@.queue, texts(paths@)),
                ..old(self)@
            }),
            final(self)@.wf(),
    {
        let mut i: usize = 0;
        assert(texts(paths@.take(0)) =~= Seq::empty());
        while i < paths.len()
            invariant
                i <= paths.len(),
                self@.wf(),
                self@ == (ScannerView {
                    queue: scheduled_all(old(self)@.queue, texts(paths@.take(i as int))),
                    ..old(self)@
                }),
            decreases paths.len() - i,
        {
            proof {
                let next = texts(paths@.take(i + 1));
                assert(next.drop_last() =~= texts(paths@.take(i as int)));
                assert(next.last() == paths@[i as int]@);
            }
            if !self.is_scheduled(paths[i].as_str()) {
                let path = paths[i].clone();
                let ghost before = self@;
                self.queue.push(path);
                proof {
                    assert(self@.queue =~= before.queue.push(path@));
                }
            }
            i = i + 1;
        }
        assert(paths@.take(i as int) =~= paths@);
    }

    /// Hands out the next file to parse, in discovery order; nothing when
    /// every scheduled file was handed out.
    pub fn next_file(&mut self) -> (next: Option<String>)
        requires
            old(self)@.wf(),
        ensures
            final(self)@.wf(),
            old(self)@.head < old(self)@.queue.len() ==> (next matches Some(path) && path@ == old(
                self,
            )@.queue[old(self)@.head] && final(self)@ == (ScannerView {
                head: old(self)@.head + 1,
                ..old(self)@
            })),
            old(self)@.head >= old(self)@.queue.len() ==> next is None && final(self)@ == old(self)@,
    {
        if self.head < self.queue.len() {
            let path = self.queue[self.head].clone();
            self.head = self.head + 1;
            Some(path)
        } else {
            None
        }
    }

    /// Takes in what parsing the file at `path` found. The file's metrics are
    /// recorded unless the path was recorded before. In a full scan the files
    /// of its child modules are scheduled, each unless it was scheduled
    /// before. A scan of entry points does not descend and keeps only whether
    /// the file forbids the escape construct, not its counters.
    pub fn record_parsed(&mut self, path: String, summary: FileSummary, child_modules: Vec<String>)
        requires
            old(self)@.wf(),
        ensures
            final(self)@ == (ScannerView {
                queue: if old(self)@.mode == ScanMode::Full {
                    scheduled_all(old(self)@.queue, texts(child_modules@))
                } else {
                    old(self)@.queue
                },
                context: old(self)@.context.recorded(
                    SourceFileView {
                        path: path@,
                        counters: if old(self)@.mode == ScanMode::Full {
                            summary.counters
                        } else {
                            CounterBlock::zero()
                        },
                        forbids_escape: summary.forbids_escape,
                    },
                ),
                ..old(self)@
            }),
            final(self)@.wf(),
    {
        match self.mode {
            ScanMode::Full => {
                let file = SourceFileMetrics {
                    path,
                    counters: summary.counters,
                    forbids_escape: summary.forbids_escape,
                };
                self.context.record(file);
                self.schedule_all(&child_modules);
            },
            ScanMode::EntryPointsOnly => {
                let file = SourceFileMetrics {
                    path,
                    counters: CounterBlock::new(),
                    forbids_escape: summary.forbids_escape,
                };
                self.context.record(file);
            },
        }
    }

    /// Takes in that the file at `path` could not be parsed. The scan goes on.
    pub fn record_failure(&mut self, path: String)
        requires
            old(self)@.wf(),
        ensures
            final(self)@ == (ScannerView {
                context: ScanContextView {
                    failed: old(self)@.context.failed.push(path@),
                    ..old(self)@.context
                },
                ..old(self)@
            }),
            final(self)@.wf(),
    {
        self.context.record_failure(path);
    }

    /// Takes in the counters of code that a macro expansion produced; see
    /// [`ScanContext::record_expansion`].
    pub fn record_expansion(&mut self, origin: Option<&str>, counters: &CounterBlock) -> (attributed:
        bool)
        requires
            old(self)@.wf(),
        ensures
            attributed == (origin is Some && old(self)@.context.has_path(origin->Some_0@)),
            final(self)@ == (ScannerView {
                context: old(self)@.context.attributed(
                    match origin {
                        Some(path) => Some(path@),
                        None => None,
                    },
                    *counters,
                ),
                ..old(self)@
            }),
            final(self)@.wf(),
    {
        self.context.record_expansion(origin, counters)
    }

    /// Ends the scan and gives what it recorded.
    pub fn finish(self) -> (context: ScanContext)
        ensures
            context@ == self@.context,
    {
        self.context
    }
}

} // verus!
