//! The result array of one search: one slot per candidate, filled block by
//! block in whatever order the workers finish, each slot once.

use vstd::prelude::*;
use crate::bits::F32;
use crate::partition::{lemma_partition_exact, Block, Partition};
use crate::select::{results_complete, EvaluationResult};
use crate::space::SearchSpace;

verus! {

/// Why a block of errors was not taken.
#[derive(Clone, Copy, Debug, PartialEq, Eq, Structural)]
pub enum WriteFault {
    /// The block reaches past the last slot.
    OutOfRange,
    /// The number of errors is not the length of the block.
    LengthMismatch,
    /// A slot of the block holds an error already; `index` is the first one.
    AlreadyWritten { index: usize },
}

/// Whether a slot of `block` is written in `slots`.
pub open spec fn overlaps(slots: Seq<Option<F32>>, block: Block) -> bool {
    exists|i: int| block.contains(i) && 0 <= i < slots.len() && (#[trigger] slots[i]) is Some
}

/// The first written slot of `block`.
pub open spec fn first_overlap(slots: Seq<Option<F32>>, block: Block) -> int {
    choose|i: int|
        block.contains(i) && 0 <= i < slots.len() && (#[trigger] slots[i]) is Some && forall|j: int|
            block.first <= j < i ==> (#[trigger] slots[j]) is None
}

/// Why `errors` cannot be written to `block` of `slots`, or `None` if they
/// can. The range is looked at first, then the length, then the slots.
pub open spec fn write_fault(slots: Seq<Option<F32>>, block: Block, errors: Seq<F32>) -> Option<
    WriteFault,
> {
    if block.first + block.count > slots.len() {
        Some(WriteFault::OutOfRange)
    } else if errors.len() != block.count {
        Some(WriteFault::LengthMismatch)
    } else if overlaps(slots, block) {
        Some(WriteFault::AlreadyWritten { index: first_overlap(slots, block) as usize })
    } else {
        None
    }
}

/// The slots after `errors` were written to `block`: each slot of the block
/// holds its error, saturated; the others are as before.
pub open spec fn written(slots: Seq<Option<F32>>, block: Block, errors: Seq<F32>) -> Seq<
    Option<F32>,
> {
    Seq::new(
        slots.len(),
        |i: int|
            if block.contains(i) {
                Some(errors[i - block.first].saturated())
            } else {
                slots[i]
            },
    )
}

/// Every slot is written.
pub open spec fn all_written(slots: Seq<Option<F32>>) -> bool {
    forall|i: int| 0 <= i < slots.len() ==> (#[trigger] slots[i]) is Some
}

/// The result array that full slots stand for.
pub open spec fn results_of(slots: Seq<Option<F32>>) -> Seq<EvaluationResult> {
    Seq::new(
        slots.len(),
        |i: int| EvaluationResult { candidate_index: i as u32, error: slots[i].unwrap() },
    )
}

/// The result array of a search in progress.
pub struct ResultBuffer {
    slots: Vec<Option<F32>>,
}

impl ResultBuffer {
    /// The slots: `None` until written.
    pub closed spec fn view(self) -> Seq<Option<F32>> {
        self.slots@
    }

    /// Every slot has a flat index: `new` makes such a buffer and `write`
    /// keeps it one.
    pub open spec fn valid(self) -> bool {
        self@.len() <= u32::MAX
    }

    /// A buffer of `total` empty slots.
    pub fn new(total: u32) -> (b: ResultBuffer)
        ensures
            b@ == Seq::new(total as nat, |i: int| None::<F32>),
            b.valid(),
    {
        let mut slots: Vec<Option<F32>> = Vec::new();
        let mut i: u32 = 0;
        while i < total
            invariant
                i <= total,
                slots@ == Seq::new(i as nat, |j: int| None::<F32>),
            decreases total - i,
        {
            slots.push(None);
            i += 1;
        }
        ResultBuffer { slots }
    }

    /// A buffer with one empty slot for each candidate of `space`.
    pub fn for_space(space: &SearchSpace) -> (b: ResultBuffer)
        ensures
            b@ == Seq::new(space.total_spec() as nat, |i: int| None::<F32>),
            b.valid(),
    {
        ResultBuffer::new(space.total())
    }

    /// The number of slots.
    pub fn capacity(&self) -> (n: u32)
        requires
            self.valid(),
        ensures
            n == self@.len(),
    {
        self.slots.len() as u32
    }

    /// Takes the errors of one block, saturating each. Nothing is written
    /// unless the block lies within the buffer, `errors` has its length, and
    /// none of its slots is written yet.
    pub fn write(&mut self, block: Block, errors: &Vec<F32>) -> (r: Result<(), WriteFault>)
        ensures
            match r {
                Ok(()) => {
                    &&& write_fault(old(self)@, block, errors@) is None
                    &&& final(self)@ == written(old(self)@, block, errors@)
                },
                Err(fault) => {
                    &&& write_fault(old(self)@, block, errors@) == Some(fault)
                    &&& final(self)@ == old(self)@
                },
            },
            final(self).valid() == old(self).valid(),
    {
        let n = self.slots.len();
        if block.first as u64 + block.count as u64 > n as u64 {
            return Err(WriteFault::OutOfRange);
        }
        if errors.len() != block.count as usize {
            return Err(WriteFault::LengthMismatch);
        }
        let first = block.first as usize;
        let count = block.count as usize;
        let mut k: usize = 0;
        while k < count
            invariant
                k <= count,
                first + count <= n,
                n == self.slots.len(),
                first == block.first,
                count == block.count,
                errors.len() == count,
                self.slots@ == old(self).slots@,
                forall|j: int| first <= j < first + k ==> (#[trigger] self.slots@[j]) is None,
            decreases count - k,
        {
            if self.slots[first + k].is_some() {
                proof {
                    let slots = self.slots@;
                    let hit = (first + k) as int;
                    assert(block.contains(hit) && slots[hit] is Some);
                    assert(forall|j: int| block.first <= j < hit ==> (#[trigger] slots[j]) is None);
                    let chosen = first_overlap(slots, block);
                    if chosen < hit {
                        assert(slots[chosen] is None);
                    } else if hit < chosen {
                        assert(slots[hit] is None);
                    }
                }
                return Err(WriteFault::AlreadyWritten { index: first + k });
            }
            k += 1;
        }
        let mut k: usize = 0;
        while k < count
            invariant
                k <= count,
                first + count <= n,
                n == self.slots.len(),
                n == old(self).slots.len(),
                first == block.first,
                count == block.count,
                errors.len() == count,
                forall|j: int|
                    0 <= j < n ==> #[trigger] self.slots@[j] == if first <= j < first + k {
                        Some(errors@[j - first].saturated())
                    } else {
                        old(self).slots@[j]
                    },
            decreases count - k,
        {
            let value = errors[k].saturate();
            self.slots.set(first + k, Some(value));
            k += 1;
        }
        proof {
            assert(self.slots@ =~= written(old(self).slots@, block, errors@));
        }
        Ok(())
    }

    /// Whether every slot is written.
    pub fn is_complete(&self) -> (r: bool)
        ensures
            r == all_written(self@),
    {
        let mut i: usize = 0;
        while i < self.slots.len()
            invariant
                i <= self.slots.len(),
                forall|j: int| 0 <= j < i ==> (#[trigger] self.slots@[j]) is Some,
            decreases self.slots.len() - i,
        {
            if self.slots[i].is_none() {
                return false;
            }
            i += 1;
        }
        true
    }

    /// The result array, once every slot is written: position `i` holds the
    /// error of the candidate with flat index `i`.
    pub fn finish(self) -> (r: Option<Vec<EvaluationResult>>)
        requires
            self.valid(),
        ensures
            match r {
                Some(results) => all_written(self@) && results@ == results_of(self@),
                None => !all_written(self@),
            },
    {
        let mut results: Vec<EvaluationResult> = Vec::new();
        let mut i: usize = 0;
        while i < self.slots.len()
            invariant
                i <= self.slots.len(),
                self.slots.len() <= u32::MAX,
                results.len() == i,
                forall|j: int| 0 <= j < i ==> (#[trigger] self.slots@[j]) is Some,
                forall|j: int|
                    0 <= j < i ==> #[trigger] results@[j] == (EvaluationResult {
                        candidate_index: j as u32,
                        error: self.slots@[j].unwrap(),
                    }),
            decreases self.slots.len() - i,
        {
            match self.slots[i] {
                Some(error) => {
                    results.push(EvaluationResult { candidate_index: i as u32, error });
                },
                None => {
                    return None;
                },
            }
            i += 1;
        }
        proof {
            assert(results@ =~= results_of(self.slots@));
        }
        Some(results)
    }
}

/// Two blocks that share no index can be written in either order.
pub proof fn lemma_writes_commute(
    slots: Seq<Option<F32>>,
    a: Block,
    errors_a: Seq<F32>,
    b: Block,
    errors_b: Seq<F32>,
)
    requires
        forall|i: int| !(a.contains(i) && b.contains(i)),
    ensures
        written(written(slots, a, errors_a), b, errors_b) == written(
            written(slots, b, errors_b),
            a,
            errors_a,
        ),
{
    assert(written(written(slots, a, errors_a), b, errors_b) =~= written(
        written(slots, b, errors_b),
        a,
        errors_a,
    ));
}

/// Two blocks that lie end to end can be written as one: what the workers
/// write block by block is what one worker would write over the whole range.
pub proof fn lemma_adjacent_writes_merge(
    slots: Seq<Option<F32>>,
    a: Block,
    errors_a: Seq<F32>,
    b: Block,
    errors_b: Seq<F32>,
)
    requires
        errors_a.len() == a.count,
        errors_b.len() == b.count,
        b.first == a.first + a.count,
        a.count + b.count <= u32::MAX,
    ensures
        written(written(slots, a, errors_a), b, errors_b) == written(
            slots,
            Block { first: a.first, count: (a.count + b.count) as u32 },
            errors_a + errors_b,
        ),
{
    assert(written(written(slots, a, errors_a), b, errors_b) =~= written(
        slots,
        Block { first: a.first, count: (a.count + b.count) as u32 },
        errors_a + errors_b,
    ));
}

/// When every block of a split is written, the buffer is full.
pub proof fn lemma_blocks_fill_buffer(p: Partition, slots: Seq<Option<F32>>)
    requires
        p.block_size() >= 1,
        slots.len() == p.total(),
        forall|k: int, i: int|
            0 <= k < p.count() && (#[trigger] p.block_at(k)).contains(i) ==> (
            #[trigger] slots[i]) is Some,
    ensures
        all_written(slots),
{
    assert forall|i: int| 0 <= i < slots.len() implies (#[trigger] slots[i]) is Some by {
        lemma_partition_exact(p, i);
        let home = i / p.block_size();
        assert(p.block_at(home).contains(i));
    }
}

/// A written slot holds a finite error, whatever was handed in.
pub proof fn lemma_written_finite(slots: Seq<Option<F32>>, block: Block, errors: Seq<F32>, i: int)
    requires
        0 <= i < slots.len(),
        block.contains(i),
    ensures
        written(slots, block, errors)[i] is Some,
        written(slots, block, errors)[i].unwrap().finite(),
{
}

/// The results of a buffer with one slot per candidate are complete for the
/// space: as many as there are candidates, each at the position of its flat
/// index.
pub proof fn lemma_buffer_results_complete(space: SearchSpace, slots: Seq<Option<F32>>)
    requires
        space.valid(),
        slots.len() == space.total_spec(),
    ensures
        results_complete(space, results_of(slots)),
{
}

} // verus!
