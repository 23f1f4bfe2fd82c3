use cargo_geiger::metrics::{Count, CounterBlock};

fn block(seed: u64) -> CounterBlock {
    CounterBlock {
        functions: Count { safe: seed, unsafe_: seed + 1 },
        exprs: Count { safe: seed * 2, unsafe_: seed * 3 },
        item_impls: Count { safe: 0, unsafe_: seed },
        item_traits: Count { safe: seed, unsafe_: 0 },
        methods: Count { safe: 7, unsafe_: seed % 3 },
    }
}

fn total(blocks: &[CounterBlock]) -> CounterBlock {
    let mut sum = CounterBlock::new();
    for b in blocks {
        sum = sum.saturating_add(b);
    }
    sum
}

#[test]
fn new_counts_nothing() {
    assert_eq!(Count::new(), Count { safe: 0, unsafe_: 0 });
    let zero = CounterBlock::new();
    assert_eq!(zero.functions, Count { safe: 0, unsafe_: 0 });
    assert_eq!(zero.exprs, Count { safe: 0, unsafe_: 0 });
    assert_eq!(zero.item_impls, Count { safe: 0, unsafe_: 0 });
    assert_eq!(zero.item_traits, Count { safe: 0, unsafe_: 0 });
    assert_eq!(zero.methods, Count { safe: 0, unsafe_: 0 });
    assert!(zero.has_no_unsafe());
}

#[test]
fn counts_add_up() {
    let a = Count { safe: 3, unsafe_: 4 };
    let b = Count { safe: 10, unsafe_: 20 };
    assert_eq!(a.saturating_add(&b), Count { safe: 13, unsafe_: 24 });
}

#[test]
fn counts_stay_at_the_largest_number() {
    let a = Count { safe: u64::MAX - 1, unsafe_: u64::MAX };
    let b = Count { safe: 5, unsafe_: 0 };
    assert_eq!(a.saturating_add(&b), Count { safe: u64::MAX, unsafe_: u64::MAX });
    let mut c = Count { safe: u64::MAX, unsafe_: u64::MAX };
    c.count(true);
    c.count(false);
    assert_eq!(c, Count { safe: u64::MAX, unsafe_: u64::MAX });
}

#[test]
fn count_records_one_occurrence() {
    let mut c = Count::new();
    c.count(false);
    assert_eq!(c, Count { safe: 1, unsafe_: 0 });
    c.count(true);
    c.count(true);
    assert_eq!(c, Count { safe: 1, unsafe_: 2 });
}

#[test]
fn blocks_add_by_category() {
    let sum = block(1).saturating_add(&block(10));
    assert_eq!(sum.functions, Count { safe: 11, unsafe_: 13 });
    assert_eq!(sum.exprs, Count { safe: 22, unsafe_: 33 });
    assert_eq!(sum.item_impls, Count { safe: 0, unsafe_: 11 });
    assert_eq!(sum.item_traits, Count { safe: 11, unsafe_: 0 });
    assert_eq!(sum.methods, Count { safe: 14, unsafe_: 2 });
    assert!(!sum.has_no_unsafe());
}

#[test]
fn adding_is_commutative_and_associative() {
    let (a, b, c) = (block(2), block(5), block(11));
    assert_eq!(a.saturating_add(&b), b.saturating_add(&a));
    assert_eq!(a.saturating_add(&b).saturating_add(&c), a.saturating_add(&b.saturating_add(&c)));
    let big = CounterBlock { functions: Count { safe: u64::MAX - 3, unsafe_: 1 }, ..block(1) };
    assert_eq!(
        big.saturating_add(&b).saturating_add(&c),
        big.saturating_add(&b.saturating_add(&c))
    );
}

#[test]
fn any_order_gives_the_same_total() {
    let blocks = [block(1), block(4), block(9), block(16)];
    let expected = total(&blocks);
    assert_eq!(total(&[blocks[3], blocks[1], blocks[0], blocks[2]]), expected);
    assert_eq!(total(&[blocks[2], blocks[3], blocks[1], blocks[0]]), expected);
    assert_eq!(expected.functions, Count { safe: 30, unsafe_: 34 });
}

#[test]
fn no_unsafe_means_every_category() {
    let mut b = CounterBlock::new();
    b.exprs.safe = 40;
    assert!(b.has_no_unsafe());
    b.item_traits.unsafe_ = 1;
    assert!(!b.has_no_unsafe());
}
