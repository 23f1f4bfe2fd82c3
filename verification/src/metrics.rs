//! Counters of safety-relevant constructs and how they add up.

use vstd::prelude::*;

verus! {

/// How often a construct occurs outside and inside an escape scope.
#[derive(Clone, Copy, Debug, PartialEq, Eq, Structural)]
pub struct Count {
    pub safe: u64,
    pub unsafe_: u64,
}

/// Exact sum of counts.
pub struct CountTotal {
    pub safe: nat,
    pub unsafe_: nat,
}

/// The largest number that `n` can be stored as.
pub open spec fn clamp(n: nat) -> u64 {
    if n > u64::MAX {
        u64::MAX
    } else {
        n as u64
    }
}

impl CountTotal {
    pub open spec fn zero() -> CountTotal {
        CountTotal { safe: 0, unsafe_: 0 }
    }

    pub open spec fn plus(self, other: CountTotal) -> CountTotal {
        CountTotal { safe: self.safe + other.safe, unsafe_: self.unsafe_ + other.unsafe_ }
    }

    /// The sum as it is stored: each number clamped to the largest that fits.
    pub open spec fn clamped(self) -> Count {
        Count { safe: clamp(self.safe), unsafe_: clamp(self.unsafe_) }
    }

    /// Occurrences of both sorts together.
    pub open spec fn all(self) -> nat {
        self.safe + self.unsafe_
    }
}

impl Count {
    /// The count as exact numbers.
    pub open spec fn total(self) -> CountTotal {
        CountTotal { safe: self.safe as nat, unsafe_: self.unsafe_ as nat }
    }

    /// A count of nothing.
    pub fn new() -> (count: Count)
        ensures
            count == (Count { safe: 0, unsafe_: 0 }),
            count.total() == CountTotal::zero(),
    {
        Count { safe: 0, unsafe_: 0 }
    }

    /// The sum of two counts as it is stored.
    pub open spec fn saturating_add_spec(self, other: Count) -> Count {
        self.total().plus(other.total()).clamped()
    }

    /// Adds two counts; a sum that does not fit stays at the largest number.
    pub fn saturating_add(&self, other: &Count) -> (sum: Count)
        ensures
            sum == self.saturating_add_spec(*other),
    {
        Count {
            safe: self.safe.saturating_add(other.safe),
            unsafe_: self.unsafe_.saturating_add(other.unsafe_),
        }
    }

    /// The count after one more occurrence, inside an escape scope or outside.
    pub open spec fn counted(self, in_escape: bool) -> Count {
        if in_escape {
            Count { safe: self.safe, unsafe_: clamp(self.unsafe_ as nat + 1) }
        } else {
            Count { safe: clamp(self.safe as nat + 1), unsafe_: self.unsafe_ }
        }
    }

    /// Records one more occurrence. A count never goes down.
    pub fn count(&mut self, in_escape: bool)
        ensures
            *final(self) == old(self).counted(in_escape),
            final(self).safe >= old(self).safe,
            final(self).unsafe_ >= old(self).unsafe_,
    {
        if in_escape {
            self.unsafe_ = self.unsafe_.saturating_add(1);
        } else {
            self.safe = self.safe.saturating_add(1);
        }
    }
}

/// The counts of one file or one package, by category of construct.
#[derive(Clone, Copy, Debug, PartialEq, Eq, Structural)]
pub struct CounterBlock {
    /// Free functions.
    pub functions: Count,
    /// Expressions.
    pub exprs: Count,
    /// Trait implementations.
    pub item_impls: Count,
    /// Trait declarations.
    pub item_traits: Count,
    /// Inherent methods.
    pub methods: Count,
}

/// Exact sum of counter blocks.
pub struct BlockTotal {
    pub functions: CountTotal,
    pub exprs: CountTotal,
    pub item_impls: CountTotal,
    pub item_traits: CountTotal,
    pub methods: CountTotal,
}

impl BlockTotal {
    pub open spec fn zero() -> BlockTotal {
        BlockTotal {
            functions: CountTotal::zero(),
            exprs: CountTotal::zero(),
            item_impls: CountTotal::zero(),
            item_traits: CountTotal::zero(),
            methods: CountTotal::zero(),
        }
    }

    pub open spec fn plus(self, other: BlockTotal) -> BlockTotal {
        BlockTotal {
            functions: self.functions.plus(other.functions),
            exprs: self.exprs.plus(other.exprs),
            item_impls: self.item_impls.plus(other.item_impls),
            item_traits: self.item_traits.plus(other.item_traits),
            methods: self.methods.plus(other.methods),
        }
    }

    /// The sum as it is stored: each number clamped to the largest that fits.
    pub open spec fn clamped(self) -> CounterBlock {
        CounterBlock {
            functions: self.functions.clamped(),
            exprs: self.exprs.clamped(),
            item_impls: self.item_impls.clamped(),
            item_traits: self.item_traits.clamped(),
            methods: self.methods.clamped(),
        }
    }

    /// Occurrences inside an escape scope, all categories together.
    pub open spec fn unsafe_all(self) -> nat {
        self.functions.unsafe_ + self.exprs.unsafe_ + self.item_impls.unsafe_
            + self.item_traits.unsafe_ + self.methods.unsafe_
    }

    /// Occurrences of every category and sort together.
    pub open spec fn all(self) -> nat {
        self.functions.all() + self.exprs.all() + self.item_impls.all() + self.item_traits.all()
            + self.methods.all()
    }
}

impl CounterBlock {
    /// The block as exact numbers.
    pub open spec fn total(self) -> BlockTotal {
        BlockTotal {
            functions: self.functions.total(),
            exprs: self.exprs.total(),
            item_impls: self.item_impls.total(),
            item_traits: self.item_traits.total(),
            methods: self.methods.total(),
        }
    }

    /// The block that counts nothing.
    pub open spec fn zero() -> CounterBlock {
        CounterBlock {
            functions: Count { safe: 0, unsafe_: 0 },
            exprs: Count { safe: 0, unsafe_: 0 },
            item_impls: Count { safe: 0, unsafe_: 0 },
            item_traits: Count { safe: 0, unsafe_: 0 },
            methods: Count { safe: 0, unsafe_: 0 },
        }
    }

    /// A block that counts nothing.
    pub fn new() -> (block: CounterBlock)
        ensures
            block == CounterBlock::zero(),
            block.total() == BlockTotal::zero(),
    {
        CounterBlock {
            functions: Count::new(),
            exprs: Count::new(),
            item_impls: Count::new(),
            item_traits: Count::new(),
            methods: Count::new(),
        }
    }

    /// The sum of two blocks as it is stored.
    pub open spec fn saturating_add_spec(self, other: CounterBlock) -> CounterBlock {
        self.total().plus(other.total()).clamped()
    }

    /// Adds two blocks category by category; a sum that does not fit stays at
    /// the largest number.
    pub fn saturating_add(&self, other: &CounterBlock) -> (sum: CounterBlock)
        ensures
            sum == self.saturating_add_spec(*other),
    {
        CounterBlock {
            functions: self.functions.saturating_add(&other.functions),
            exprs: self.exprs.saturating_add(&other.exprs),
            item_impls: self.item_impls.saturating_add(&other.item_impls),
            item_traits: self.item_traits.saturating_add(&other.item_traits),
            methods: self.methods.saturating_add(&other.methods),
        }
    }

    /// Tells whether nothing was counted inside an escape scope.
    pub fn has_no_unsafe(&self) -> (none: bool)
        ensures
            none == (self.total().unsafe_all() == 0),
    {
        self.functions.unsafe_ == 0 && self.exprs.unsafe_ == 0 && self.item_impls.unsafe_ == 0
            && self.item_traits.unsafe_ == 0 && self.methods.unsafe_ == 0
    }
}

/// Exact sum of a sequence of blocks.
pub open spec fn sum_blocks(blocks: Seq<CounterBlock>) -> BlockTotal
    decreases blocks.len(),
{
    if blocks.len() == 0 {
        BlockTotal::zero()
    } else {
        sum_blocks(blocks.drop_last()).plus(blocks.last().total())
    }
}

/// Adding is commutative.
pub proof fn lemma_plus_commutative(a: BlockTotal, b: BlockTotal)
    ensures
        a.plus(b) == b.plus(a),
{
}

/// Adding is associative.
pub proof fn lemma_plus_associative(a: BlockTotal, b: BlockTotal, c: BlockTotal)
    ensures
        a.plus(b).plus(c) == a.plus(b.plus(c)),
{
}

/// Adding stored blocks is commutative.
pub proof fn lemma_saturating_add_commutative(a: CounterBlock, b: CounterBlock)
    ensures
        a.saturating_add_spec(b) == b.saturating_add_spec(a),
{
}

/// Adding stored blocks is associative, clamping included.
pub proof fn lemma_saturating_add_associative(a: CounterBlock, b: CounterBlock, c: CounterBlock)
    ensures
        a.saturating_add_spec(b).saturating_add_spec(c) == a.saturating_add_spec(
            b.saturating_add_spec(c),
        ),
{
}

/// Adding a stored running total to a block gives the stored exact total.
pub proof fn lemma_clamped_step(sum: BlockTotal, block: CounterBlock)
    ensures
        sum.clamped().saturating_add_spec(block) == sum.plus(block.total()).clamped(),
{
}

/// Taking one block out of a sequence takes its counts out of the sum.
pub proof fn lemma_sum_remove(blocks: Seq<CounterBlock>, i: int)
    requires
        0 <= i < blocks.len(),
    ensures
        sum_blocks(blocks) == sum_blocks(blocks.remove(i)).plus(blocks[i].total()),
    decreases blocks.len(),
{
    if i == blocks.len() - 1 {
        assert(blocks.remove(i) =~= blocks.drop_last());
    } else {
        let shorter = blocks.drop_last();
        lemma_sum_remove(shorter, i);
        assert(blocks.remove(i).drop_last() =~= shorter.remove(i));
        assert(blocks.remove(i).last() == blocks.last());
    }
}

/// The sum does not depend on the order: two sequences that hold the same
/// blocks, each as often as the other, have the same sum.
pub proof fn lemma_sum_any_order(first: Seq<CounterBlock>, second: Seq<CounterBlock>)
    requires
        first.to_multiset() == second.to_multiset(),
    ensures
        sum_blocks(first) == sum_blocks(second),
    decreases first.len(),
{
    first.to_multiset_ensures();
    second.to_multiset_ensures();
    assert(first.len() == second.len());
    if first.len() > 0 {
        let last = first.last();
        assert(first.contains(last));
        assert(second.to_multiset().count(last) > 0);
        assert(second.contains(last));
        let i = choose|i: int| 0 <= i < second.len() && second[i] == last;
        assert(first.drop_last() =~= first.remove(first.len() - 1));
        assert(first.drop_last().to_multiset() =~= second.remove(i).to_multiset());
        lemma_sum_any_order(first.drop_last(), second.remove(i));
        lemma_sum_remove(second, i);
    }
}

} // verus!
