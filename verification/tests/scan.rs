use cargo_geiger::metrics::{Count, CounterBlock};
use cargo_geiger::scan::{
    summarize, FileSummary, ScanContext, ScanMode, Scanner, SourceFileMetrics, SyntaxEvent,
};

fn summary(forbids_escape: bool) -> FileSummary {
    FileSummary { counters: CounterBlock::new(), forbids_escape }
}

fn paths(context: &ScanContext) -> Vec<String> {
    context.files().iter().map(|f| f.path.clone()).collect()
}

#[test]
fn escape_block_and_unsafe_impl() {
    // One escape block around two calls, and one escape-qualified trait implementation.
    let events = vec![
        SyntaxEvent::EnterFunction { escape: false },
        SyntaxEvent::EnterEscapeBlock,
        SyntaxEvent::Expression,
        SyntaxEvent::Expression,
        SyntaxEvent::Leave,
        SyntaxEvent::Leave,
        SyntaxEvent::EnterImpl { escape: true },
        SyntaxEvent::Leave,
    ];
    let found = summarize(&events, false).unwrap();
    assert!(found.counters.exprs.unsafe_ >= 2);
    assert_eq!(found.counters.exprs, Count { safe: 0, unsafe_: 2 });
    assert_eq!(found.counters.item_impls, Count { safe: 0, unsafe_: 1 });
    assert_eq!(found.counters.functions, Count { safe: 1, unsafe_: 0 });
    assert!(!found.forbids_escape);
}

#[test]
fn expressions_outside_escape_scopes_are_safe() {
    let events = vec![
        SyntaxEvent::Expression,
        SyntaxEvent::EnterEscapeBlock,
        SyntaxEvent::Expression,
        SyntaxEvent::Leave,
        SyntaxEvent::Expression,
    ];
    let found = summarize(&events, false).unwrap();
    assert_eq!(found.counters.exprs, Count { safe: 2, unsafe_: 1 });
}

#[test]
fn escape_qualified_items_open_an_escape_scope() {
    let events = vec![
        SyntaxEvent::EnterFunction { escape: true },
        SyntaxEvent::Expression,
        SyntaxEvent::Leave,
        SyntaxEvent::EnterTrait { escape: true },
        SyntaxEvent::EnterMethod { escape: false },
        SyntaxEvent::Expression,
        SyntaxEvent::Leave,
        SyntaxEvent::Leave,
        SyntaxEvent::EnterMethod { escape: true },
        SyntaxEvent::Leave,
        SyntaxEvent::EnterMethod { escape: false },
        SyntaxEvent::Expression,
        SyntaxEvent::Leave,
    ];
    let found = summarize(&events, false).unwrap();
    assert_eq!(found.counters.functions, Count { safe: 0, unsafe_: 1 });
    assert_eq!(found.counters.item_traits, Count { safe: 0, unsafe_: 1 });
    // A method inside an escape-qualified trait stands inside an escape scope.
    assert_eq!(found.counters.methods, Count { safe: 1, unsafe_: 2 });
    assert_eq!(found.counters.exprs, Count { safe: 1, unsafe_: 2 });
    assert_eq!(found.counters.item_impls, Count { safe: 0, unsafe_: 0 });
}

#[test]
fn nested_scopes_close_one_by_one() {
    let events = vec![
        SyntaxEvent::EnterEscapeBlock,
        SyntaxEvent::EnterFunction { escape: false },
        SyntaxEvent::Expression,
        SyntaxEvent::Leave,
        SyntaxEvent::Expression,
        SyntaxEvent::Leave,
        SyntaxEvent::Expression,
    ];
    let found = summarize(&events, false).unwrap();
    assert_eq!(found.counters.exprs, Count { safe: 1, unsafe_: 2 });
    assert_eq!(found.counters.functions, Count { safe: 0, unsafe_: 1 });
}

#[test]
fn no_events_no_counts() {
    let found = summarize(&vec![], false).unwrap();
    assert_eq!(found, FileSummary { counters: CounterBlock::new(), forbids_escape: false });
}

#[test]
fn badly_nested_events_give_nothing() {
    assert_eq!(summarize(&vec![SyntaxEvent::Leave], false), None);
    assert_eq!(summarize(&vec![SyntaxEvent::EnterEscapeBlock], true), None);
    assert_eq!(
        summarize(
            &vec![
                SyntaxEvent::EnterImpl { escape: false },
                SyntaxEvent::Leave,
                SyntaxEvent::Leave,
                SyntaxEvent::EnterImpl { escape: false },
            ],
            false
        ),
        None
    );
}

#[test]
fn forbid_directive_at_file_scope() {
    let events = vec![SyntaxEvent::ForbidDirective, SyntaxEvent::Expression];
    assert!(summarize(&events, false).unwrap().forbids_escape);
}

#[test]
fn forbid_directive_in_a_nested_scope_does_not_cover_the_file() {
    let events = vec![
        SyntaxEvent::EnterFunction { escape: false },
        SyntaxEvent::ForbidDirective,
        SyntaxEvent::Leave,
    ];
    assert!(!summarize(&events, false).unwrap().forbids_escape);
}

#[test]
fn override_undoes_the_directive() {
    let events = vec![
        SyntaxEvent::ForbidDirective,
        SyntaxEvent::EnterFunction { escape: false },
        SyntaxEvent::AllowOverride,
        SyntaxEvent::Leave,
    ];
    assert!(!summarize(&events, false).unwrap().forbids_escape);
    let events = vec![SyntaxEvent::AllowOverride, SyntaxEvent::ForbidDirective];
    assert!(!summarize(&events, false).unwrap().forbids_escape);
}

#[test]
fn test_code_is_counted_on_request() {
    let events = vec![
        SyntaxEvent::Expression,
        SyntaxEvent::EnterTest,
        SyntaxEvent::EnterFunction { escape: false },
        SyntaxEvent::EnterEscapeBlock,
        SyntaxEvent::Expression,
        SyntaxEvent::Leave,
        SyntaxEvent::Expression,
        SyntaxEvent::Leave,
        SyntaxEvent::Leave,
        SyntaxEvent::EnterFunction { escape: true },
        SyntaxEvent::Leave,
    ];
    let without = summarize(&events, false).unwrap();
    assert_eq!(without.counters.exprs, Count { safe: 1, unsafe_: 0 });
    assert_eq!(without.counters.functions, Count { safe: 0, unsafe_: 1 });
    let with = summarize(&events, true).unwrap();
    assert_eq!(with.counters.exprs, Count { safe: 2, unsafe_: 1 });
    assert_eq!(with.counters.functions, Count { safe: 1, unsafe_: 1 });
}

#[test]
fn context_records_each_path_once() {
    let mut context = ScanContext::new();
    let first = SourceFileMetrics {
        path: String::from("/a/lib.rs"),
        counters: CounterBlock::new(),
        forbids_escape: true,
    };
    let again = SourceFileMetrics {
        path: String::from("/a/lib.rs"),
        counters: CounterBlock::new(),
        forbids_escape: false,
    };
    let other = SourceFileMetrics {
        path: String::from("/a/mod.rs"),
        counters: CounterBlock::new(),
        forbids_escape: false,
    };
    assert!(context.record(first));
    assert!(!context.record(again));
    assert!(context.record(other));
    assert_eq!(paths(&context), vec![String::from("/a/lib.rs"), String::from("/a/mod.rs")]);
    assert!(context.files()[0].forbids_escape);
    assert!(context.has_path("/a/lib.rs"));
    assert!(!context.has_path("/a/li"));
    context.record_failure(String::from("/a/broken.rs"));
    assert_eq!(context.parse_errors(), &vec![String::from("/a/broken.rs")]);
    assert!(!context.has_path("/a/broken.rs"));
}

#[test]
fn expanded_code_goes_to_its_file() {
    let mut context = ScanContext::new();
    let mut counters = CounterBlock::new();
    counters.exprs = Count { safe: 1, unsafe_: 2 };
    context.record(SourceFileMetrics {
        path: String::from("/a/lib.rs"),
        counters,
        forbids_escape: false,
    });
    context.record(SourceFileMetrics {
        path: String::from("/a/other.rs"),
        counters,
        forbids_escape: true,
    });
    let mut expanded = CounterBlock::new();
    expanded.exprs = Count { safe: 10, unsafe_: 20 };
    expanded.methods = Count { safe: 0, unsafe_: 1 };
    assert!(context.record_expansion(Some("/a/other.rs"), &expanded));
    assert_eq!(context.files()[0].counters, counters);
    assert_eq!(context.files()[1].counters.exprs, Count { safe: 11, unsafe_: 22 });
    assert_eq!(context.files()[1].counters.methods, Count { safe: 0, unsafe_: 1 });
    assert!(context.files()[1].forbids_escape);
    assert_eq!(context.untraceable(), 0);
    // Without a scanned file to go to, the expansion is left out and counted.
    assert!(!context.record_expansion(None, &expanded));
    assert!(!context.record_expansion(Some("/a/unknown.rs"), &expanded));
    assert_eq!(context.untraceable(), 2);
    assert_eq!(context.files().len(), 2);
    assert_eq!(context.files()[0].counters, counters);
    assert_eq!(context.files()[1].counters.exprs, Count { safe: 11, unsafe_: 22 });
}

#[test]
fn scanner_takes_in_expanded_code() {
    let mut scanner = Scanner::new(ScanMode::Full, vec![String::from("/p/lib.rs")]);
    assert_eq!(scanner.next_file(), Some(String::from("/p/lib.rs")));
    scanner.record_parsed(String::from("/p/lib.rs"), summary(false), vec![]);
    let mut expanded = CounterBlock::new();
    expanded.functions = Count { safe: 2, unsafe_: 3 };
    assert!(scanner.record_expansion(Some("/p/lib.rs"), &expanded));
    assert!(!scanner.record_expansion(None, &expanded));
    let context = scanner.finish();
    assert_eq!(context.files()[0].counters.functions, Count { safe: 2, unsafe_: 3 });
    assert_eq!(context.untraceable(), 1);
}

#[test]
fn full_scan_visits_each_file_once() {
    let mut scanner =
        Scanner::new(ScanMode::Full, vec![String::from("/p/lib.rs"), String::from("/p/lib.rs")]);
    assert_eq!(scanner.next_file(), Some(String::from("/p/lib.rs")));
    let mut counted = summary(true);
    counted.counters.exprs = Count { safe: 5, unsafe_: 6 };
    scanner.record_parsed(
        String::from("/p/lib.rs"),
        counted,
        vec![String::from("/p/a.rs"), String::from("/p/b.rs"), String::from("/p/a.rs")],
    );
    assert_eq!(scanner.next_file(), Some(String::from("/p/a.rs")));
    // `a.rs` reaches `b.rs` and the entry file again.
    scanner.record_parsed(
        String::from("/p/a.rs"),
        summary(false),
        vec![String::from("/p/b.rs"), String::from("/p/lib.rs"), String::from("/p/c.rs")],
    );
    assert_eq!(scanner.next_file(), Some(String::from("/p/b.rs")));
    scanner.record_parsed(String::from("/p/b.rs"), summary(false), vec![]);
    assert_eq!(scanner.next_file(), Some(String::from("/p/c.rs")));
    scanner.record_failure(String::from("/p/c.rs"));
    assert_eq!(scanner.next_file(), None);
    assert_eq!(scanner.next_file(), None);
    let context = scanner.finish();
    assert_eq!(
        paths(&context),
        vec![String::from("/p/lib.rs"), String::from("/p/a.rs"), String::from("/p/b.rs")]
    );
    assert_eq!(context.parse_errors(), &vec![String::from("/p/c.rs")]);
    assert_eq!(context.files()[0].counters.exprs, Count { safe: 5, unsafe_: 6 });
}

#[test]
fn entry_point_scan_does_not_descend() {
    let mut scanner = Scanner::new(
        ScanMode::EntryPointsOnly,
        vec![String::from("/p/lib.rs"), String::from("/p/main.rs")],
    );
    assert_eq!(scanner.next_file(), Some(String::from("/p/lib.rs")));
    let mut counted = summary(true);
    counted.counters.exprs = Count { safe: 5, unsafe_: 6 };
    scanner.record_parsed(String::from("/p/lib.rs"), counted, vec![String::from("/p/a.rs")]);
    assert_eq!(scanner.next_file(), Some(String::from("/p/main.rs")));
    scanner.record_parsed(String::from("/p/main.rs"), summary(false), vec![]);
    assert_eq!(scanner.next_file(), None);
    let context = scanner.finish();
    assert_eq!(paths(&context), vec![String::from("/p/lib.rs"), String::from("/p/main.rs")]);
    assert!(context.files()[0].forbids_escape);
    assert!(!context.files()[1].forbids_escape);
    // Only the directive is looked at.
    assert_eq!(context.files()[0].counters, CounterBlock::new());
}

#[test]
fn scan_without_entry_files() {
    let mut scanner = Scanner::new(ScanMode::Full, vec![]);
    assert_eq!(scanner.next_file(), None);
    assert!(scanner.finish().files().is_empty());
}

#[test]
fn only_file_fails_to_parse() {
    let mut scanner = Scanner::new(ScanMode::Full, vec![String::from("/p/lib.rs")]);
    assert_eq!(scanner.next_file(), Some(String::from("/p/lib.rs")));
    scanner.record_failure(String::from("/p/lib.rs"));
    assert_eq!(scanner.next_file(), None);
    let context = scanner.finish();
    assert!(context.files().is_empty());
    assert_eq!(context.parse_errors(), &vec![String::from("/p/lib.rs")]);
}
