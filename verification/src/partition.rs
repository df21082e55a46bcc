//! The split of the candidate range into blocks, one per worker: every flat
//! index lies in exactly one block.

use vstd::prelude::*;

verus! {

/// A run of consecutive flat indices: `first`, `first + 1`, ... , `count` of
/// them.
#[derive(Clone, Copy, Debug, PartialEq, Eq, Structural)]
pub struct Block {
    pub first: u32,
    pub count: u32,
}

impl Block {
    /// Whether `index` lies in the block.
    pub open spec fn contains(self, index: int) -> bool {
        self.first <= index < self.first + self.count
    }
}

/// The number of blocks of `size` indices that cover `total` indices; the
/// last one may be shorter.
pub open spec fn block_count_of(total: int, size: int) -> int {
    (total + size - 1) / size
}

/// Where block `k` starts.
pub open spec fn block_first(size: int, k: int) -> int {
    k * size
}

/// How many indices block `k` holds.
pub open spec fn block_len(total: int, size: int, k: int) -> int {
    if total - k * size < size {
        total - k * size
    } else {
        size
    }
}

/// There are no more blocks than indices.
pub proof fn lemma_block_count_bound(total: int, size: int)
    requires
        0 <= total,
        1 <= size,
    ensures
        0 <= block_count_of(total, size) <= total,
{
    let n = block_count_of(total, size);
    assert(0 <= n <= total) by (nonlinear_arith)
        requires
            n == (total + size - 1) / size,
            1 <= size,
            0 <= total,
    ;
}

/// Every block but the last is full, and the last one ends at `total`.
pub proof fn lemma_block_bounds(total: int, size: int, k: int)
    requires
        0 <= total,
        1 <= size,
        0 <= k < block_count_of(total, size),
    ensures
        0 <= block_first(size, k) < total,
        1 <= block_len(total, size, k) <= size,
        block_first(size, k) + block_len(total, size, k) <= total,
{
    let n = block_count_of(total, size);
    assert(k * size < total && 0 <= k * size) by (nonlinear_arith)
        requires
            n == (total + size - 1) / size,
            0 <= k < n,
            1 <= size,
            0 <= total,
    ;
}

/// The block that holds `index` is the one numbered `index / size`.
pub proof fn lemma_block_of_index(total: int, size: int, index: int)
    requires
        1 <= size,
        0 <= index < total,
    ensures
        0 <= index / size < block_count_of(total, size),
        block_first(size, index / size) <= index < block_first(size, index / size) + block_len(
            total,
            size,
            index / size,
        ),
{
    let k = index / size;
    let n = block_count_of(total, size);
    assert(0 <= k < n && k * size <= index < k * size + size) by (nonlinear_arith)
        requires
            k == index / size,
            n == (total + size - 1) / size,
            1 <= size,
            0 <= index < total,
    ;
}

/// No index lies in two blocks.
pub proof fn lemma_blocks_disjoint(total: int, size: int, a: int, b: int, index: int)
    requires
        1 <= size,
        0 <= a,
        0 <= b,
        block_first(size, a) <= index < block_first(size, a) + block_len(total, size, a),
        block_first(size, b) <= index < block_first(size, b) + block_len(total, size, b),
    ensures
        a == b,
{
    assert(a == b) by (nonlinear_arith)
        requires
            1 <= size,
            a * size <= index < a * size + size,
            b * size <= index < b * size + size,
    ;
}

/// A split of `total` flat indices into blocks of `block_size`.
pub struct Partition {
    total: u32,
    block_size: u32,
}

impl Partition {
    #[verifier::type_invariant]
    spec fn well_formed(self) -> bool {
        self.block_size >= 1
    }

    /// The number of indices that are split.
    pub closed spec fn total(self) -> int {
        self.total as int
    }

    /// The length of every block but the last.
    pub closed spec fn block_size(self) -> int {
        self.block_size as int
    }

    /// The number of blocks.
    pub open spec fn count(self) -> int {
        block_count_of(self.total(), self.block_size())
    }

    /// Block `k` of the split.
    pub open spec fn block_at(self, k: int) -> Block {
        Block {
            first: block_first(self.block_size(), k) as u32,
            count: block_len(self.total(), self.block_size(), k) as u32,
        }
    }

    /// Splits `total` indices into blocks of `block_size`; there is no split
    /// into blocks of length zero.
    pub fn new(total: u32, block_size: u32) -> (r: Option<Partition>)
        ensures
            match r {
                Some(p) => block_size >= 1 && p.total() == total && p.block_size() == block_size,
                None => block_size == 0,
            },
    {
        if block_size == 0 {
            None
        } else {
            Some(Partition { total, block_size })
        }
    }

    /// The number of blocks.
    pub fn block_count(&self) -> (n: u32)
        ensures
            n == self.count(),
            self.block_size() >= 1,
    {
        proof {
            use_type_invariant(self);
            lemma_block_count_bound(self.total as int, self.block_size as int);
        }
        let n: u64 = (self.total as u64 + self.block_size as u64 - 1) / (self.block_size as u64);
        n as u32
    }

    /// Block `k`, if the split has that many blocks.
    pub fn block(&self, k: u32) -> (r: Option<Block>)
        ensures
            match r {
                Some(b) => {
                    &&& k < self.count()
                    &&& b == self.block_at(k as int)
                    &&& b.count >= 1
                    &&& b.first + b.count <= self.total()
                },
                None => k >= self.count(),
            },
    {
        let n = self.block_count();
        if k >= n {
            return None;
        }
        proof {
            lemma_block_bounds(self.total as int, self.block_size as int, k as int);
        }
        let first: u32 = k * self.block_size;
        let left: u32 = self.total - first;
        let count: u32 = if left < self.block_size { left } else { self.block_size };
        Some(Block { first, count })
    }

    /// The number of the block that holds `index`, if the index is in range.
    pub fn block_of(&self, index: u32) -> (r: Option<u32>)
        ensures
            match r {
                Some(k) => {
                    &&& index < self.total()
                    &&& k < self.count()
                    &&& self.block_at(k as int).contains(index as int)
                    &&& k == index as int / self.block_size()
                },
                None => index >= self.total(),
            },
    {
        proof {
            use_type_invariant(self);
        }
        if index >= self.total {
            return None;
        }
        proof {
            lemma_block_of_index(self.total as int, self.block_size as int, index as int);
            lemma_block_bounds(
                self.total as int,
                self.block_size as int,
                index as int / self.block_size as int,
            );
        }
        Some(index / self.block_size)
    }
}

/// Every index in range lies in one block of the split, and in no other.
pub proof fn lemma_partition_exact(p: Partition, index: int)
    requires
        p.block_size() >= 1,
        0 <= index < p.total(),
    ensures
        0 <= index / p.block_size() < p.count(),
        p.block_at(index / p.block_size()).contains(index),
        forall|k: int|
            0 <= k < p.count() && (#[trigger] p.block_at(k)).contains(index) ==> k == index
                / p.block_size(),
{
    let size = p.block_size();
    let total = p.total();
    let home = index / size;
    lemma_block_of_index(total, size, index);
    lemma_block_bounds(total, size, home);
    assert forall|k: int| 0 <= k < p.count() && (#[trigger] p.block_at(k)).contains(
        index,
    ) implies k == home by {
        lemma_block_bounds(total, size, k);
        lemma_blocks_disjoint(total, size, k, home, index);
    }
}

} // verus!
