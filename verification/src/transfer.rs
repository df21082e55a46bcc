//! What crosses to the execution context and back: the samples as one byte
//! buffer, the errors as another, and the shape of the dispatch.
//!
//! Words are laid out in memory order, which is the machine's: least
//! significant byte first on some machines, most significant first on
//! others. The contracts hold on either.

use vstd::prelude::*;
use vstd::slice::slice_subrange;
use crate::bits::F32;
use crate::radix::{digits_valid, encode, product};
use crate::samples::SampleStore;
use crate::space::{ParameterAxis, SearchSpace};

verus! {

/// The word that four bytes stand for, least significant byte first.
pub open spec fn word_le(bytes: Seq<u8>) -> int {
    bytes[0] + 0x100 * bytes[1] + 0x1_0000 * bytes[2] + 0x100_0000 * bytes[3]
}

/// The word that four bytes stand for, most significant byte first.
pub open spec fn word_be(bytes: Seq<u8>) -> int {
    bytes[3] + 0x100 * bytes[2] + 0x1_0000 * bytes[1] + 0x100_0000 * bytes[0]
}

/// The four bytes of word `i` in a buffer of words.
pub open spec fn chunk(bytes: Seq<u8>, i: int) -> Seq<u8> {
    bytes.subrange(4 * i, 4 * i + 4)
}

/// `bytes` holds `words`, four bytes each, least significant byte first.
pub open spec fn holds_le(bytes: Seq<u8>, words: Seq<u32>) -> bool {
    &&& bytes.len() == 4 * words.len()
    &&& forall|i: int| 0 <= i < words.len() ==> word_le(chunk(bytes, i)) == #[trigger] words[i]
}

/// `bytes` holds `words`, four bytes each, most significant byte first.
pub open spec fn holds_be(bytes: Seq<u8>, words: Seq<u32>) -> bool {
    &&& bytes.len() == 4 * words.len()
    &&& forall|i: int| 0 <= i < words.len() ==> word_be(chunk(bytes, i)) == #[trigger] words[i]
}

/// `bytes` holds `words` in one of the two byte orders, the same for every
/// word.
pub open spec fn holds(bytes: Seq<u8>, words: Seq<u32>) -> bool {
    holds_le(bytes, words) || holds_be(bytes, words)
}

/// The sample values in the order of the upload buffer: `x` and `y` of the
/// first sample, then of the second, and so on.
pub open spec fn interleaved(samples: Seq<(F32, F32)>) -> Seq<u32> {
    Seq::new(
        2 * samples.len(),
        |i: int|
            if i % 2 == 0 {
                samples[i / 2].0.0
            } else {
                samples[i / 2].1.0
            },
    )
}

/// The description of the axes in the order of the grid buffer: of each axis
/// its minimum, its maximum and its resolution.
pub open spec fn described(axes: Seq<ParameterAxis>) -> Seq<u32> {
    Seq::new(
        3 * axes.len(),
        |i: int|
            if i % 3 == 0 {
                axes[i / 3].min.0
            } else if i % 3 == 1 {
                axes[i / 3].max.0
            } else {
                axes[i / 3].resolution
            },
    )
}

/// Calls `bytemuck::cast_slice` to view 32-bit words as bytes, and copies
/// them. Trusted: the bytes are those of the words in memory, so there are
/// four to a word, in the machine's byte order. (From `u32` to `u8` the cast
/// cannot fail: the alignment does not grow and every length divides.)
#[verifier::external_body]
fn words_to_bytes(words: &Vec<u32>) -> (bytes: Vec<u8>)
    ensures
        holds(bytes@, words@),
{
    bytemuck::cast_slice::<u32, u8>(words.as_slice()).to_vec()
}

/// Calls `bytemuck::pod_read_unaligned` to read one 32-bit word from four
/// bytes. Trusted: the word is the one whose bytes in memory these are, in
/// the machine's byte order. (The call panics on any other length.)
#[verifier::external_body]
fn word_of_bytes(bytes: &[u8]) -> (word: u32)
    requires
        bytes@.len() == 4,
    ensures
        word == word_le(bytes@) || word == word_be(bytes@),
{
    bytemuck::pod_read_unaligned::<u32>(bytes)
}

/// The sample values as words, in the order of the upload buffer.
pub fn interleave(samples: &SampleStore) -> (words: Vec<u32>)
    ensures
        words@ == interleaved(samples@),
{
    let n = samples.len();
    let xs = samples.x_values();
    let ys = samples.y_values();
    let mut words: Vec<u32> = Vec::new();
    let mut i: usize = 0;
    while i < n
        invariant
            i <= n,
            n == samples@.len(),
            xs@ == samples.xs(),
            ys@ == samples.ys(),
            samples.valid(),
            words@ == interleaved(samples@.take(i as int)),
        decreases n - i,
    {
        let ghost before = words@;
        words.push(xs[i].0);
        words.push(ys[i].0);
        proof {
            let grown = interleaved(samples@.take(i + 1));
            assert(words@.len() == grown.len());
            assert forall|k: int| 0 <= k < grown.len() implies words@[k] == grown[k] by {
                if k < 2 * i {
                    assert(words@[k] == before[k]);
                    assert(samples@.take(i as int)[k / 2] == samples@.take(i + 1)[k / 2]);
                } else {
                    assert(k / 2 == i);
                    assert(samples@.take(i + 1)[i as int] == samples@[i as int]);
                }
            }
            assert(words@ =~= grown);
        }
        i += 1;
    }
    proof {
        assert(samples@.take(n as int) =~= samples@);
    }
    words
}

/// The upload buffer: every sample as two words, `x` then `y`, eight bytes
/// to a sample.
pub fn upload_bytes(samples: &SampleStore) -> (bytes: Vec<u8>)
    ensures
        holds(bytes@, interleaved(samples@)),
        bytes@.len() == 8 * samples@.len(),
{
    let words = interleave(samples);
    words_to_bytes(&words)
}

/// The description of the search space as words, in the order of the grid
/// buffer.
pub fn describe(space: &SearchSpace) -> (words: Vec<u32>)
    ensures
        words@ == described(space.axes()),
{
    let n = space.axis_count();
    let mut words: Vec<u32> = Vec::new();
    let mut k: usize = 0;
    while k < n
        invariant
            k <= n,
            n == space.axes().len(),
            words@ == described(space.axes().take(k as int)),
        decreases n - k,
    {
        let ghost before = words@;
        match space.axis(k) {
            Some(axis) => {
                words.push(axis.min.0);
                words.push(axis.max.0);
                words.push(axis.resolution);
            },
            None => {},
        }
        proof {
            let grown = described(space.axes().take(k + 1));
            assert(words@.len() == grown.len());
            assert forall|i: int| 0 <= i < grown.len() implies words@[i] == grown[i] by {
                if i < 3 * k {
                    assert(words@[i] == before[i]);
                    assert(space.axes().take(k as int)[i / 3] == space.axes().take(k + 1)[i / 3]);
                } else {
                    assert(i / 3 == k);
                    assert(space.axes().take(k + 1)[k as int] == space.axes()[k as int]);
                }
            }
            assert(words@ =~= grown);
        }
        k += 1;
    }
    proof {
        assert(space.axes().take(n as int) =~= space.axes());
    }
    words
}

/// The grid buffer: the description of every axis, twelve bytes to an axis.
pub fn grid_bytes(space: &SearchSpace) -> (bytes: Vec<u8>)
    ensures
        holds(bytes@, described(space.axes())),
        bytes@.len() == 12 * space.axes().len(),
{
    let words = describe(space);
    words_to_bytes(&words)
}

/// The errors that a result buffer holds, one word each; `None` when the
/// buffer is not a whole number of words.
pub fn download_errors(bytes: &Vec<u8>) -> (r: Option<Vec<F32>>)
    ensures
        match r {
            Some(errors) => {
                &&& bytes@.len() == 4 * errors@.len()
                &&& forall|i: int|
                    0 <= i < errors@.len() ==> {
                        ||| (#[trigger] errors@[i]).0 == word_le(chunk(bytes@, i))
                        ||| errors@[i].0 == word_be(chunk(bytes@, i))
                    }
            },
            None => bytes@.len() % 4 != 0,
        },
{
    let len = bytes.len();
    if len % 4 != 0 {
        return None;
    }
    let n = len / 4;
    let all = bytes.as_slice();
    let mut errors: Vec<F32> = Vec::new();
    let mut i: usize = 0;
    while i < n
        invariant
            i <= n,
            len == 4 * n,
            all@ == bytes@,
            len == bytes@.len(),
            errors.len() == i,
            forall|k: int|
                0 <= k < i ==> {
                    ||| (#[trigger] errors@[k]).0 == word_le(chunk(bytes@, k))
                    ||| errors@[k].0 == word_be(chunk(bytes@, k))
                },
        decreases n - i,
    {
        let four = slice_subrange(all, 4 * i, 4 * i + 4);
        let word = word_of_bytes(four);
        errors.push(F32(word));
        i += 1;
    }
    Some(errors)
}

/// The size in bytes of the upload buffer for `count` samples; `None` when
/// there is nothing to upload or the size is not a 64-bit number.
pub fn sample_buffer_size(count: usize) -> (r: Option<u64>)
    ensures
        match r {
            Some(size) => count >= 1 && size == 8 * count,
            None => count == 0 || 8 * count > u64::MAX,
        },
{
    if count == 0 || count as u64 > u64::MAX / 8 {
        None
    } else {
        Some(8 * (count as u64))
    }
}

/// The size in bytes of the result buffer: one word for each of `total`
/// candidates.
pub fn result_buffer_size(total: u32) -> (size: u64)
    ensures
        size == 4 * total,
{
    4 * (total as u64)
}

/// The extent of the dispatch along dimension `k`: the resolution of axis
/// `k`, and one where there is no such axis.
pub open spec fn extent(resolutions: Seq<int>, k: int) -> int {
    if 0 <= k < resolutions.len() {
        resolutions[k]
    } else {
        1
    }
}

/// The shape of a dispatch with one worker per candidate: one dimension per
/// axis. `None` when an axis has more grid points than a dimension may have
/// workers.
pub fn workgroups(space: &SearchSpace, limit: u32) -> (r: Option<(u32, u32, u32)>)
    ensures
        match r {
            Some((x, y, z)) => {
                &&& x == extent(space.resolutions(), 0)
                &&& y == extent(space.resolutions(), 1)
                &&& z == extent(space.resolutions(), 2)
                &&& x <= limit && y <= limit && z <= limit
                &&& x * y * z == space.total_spec()
            },
            None => exists|k: int|
                0 <= k < space.resolutions().len() && #[trigger] space.resolutions()[k] > limit,
        },
{
    let n = space.axis_count();
    let mut shape: [u32; 3] = [1, 1, 1];
    let mut k: usize = 0;
    while k < n
        invariant
            k <= n <= 3,
            n == space.axes().len(),
            forall|j: int|
                0 <= j < 3 ==> #[trigger] shape@[j] == if j < k {
                    extent(space.resolutions(), j)
                } else {
                    1
                },
            forall|j: int| 0 <= j < k ==> #[trigger] space.resolutions()[j] <= limit,
        decreases n - k,
    {
        let resolution = match space.axis(k) {
            Some(axis) => axis.resolution,
            None => 1,
        };
        assert(space.resolutions()[k as int] == resolution);
        if resolution > limit {
            return None;
        }
        shape[k] = resolution;
        k += 1;
    }
    proof {
        lemma_extent_product(space.resolutions());
        assert(space.resolutions()[0] >= 1);
    }
    Some((shape[0], shape[1], shape[2]))
}

/// The extents of up to three axes multiply to the number of candidates.
pub proof fn lemma_extent_product(resolutions: Seq<int>)
    requires
        resolutions.len() <= 3,
    ensures
        extent(resolutions, 0) * extent(resolutions, 1) * extent(resolutions, 2) == product(
            resolutions,
        ),
{
    reveal_with_fuel(product, 4);
    let r = resolutions;
    if r.len() == 1 {
        assert(r.drop_last().len() == 0);
    } else if r.len() == 2 {
        assert(r.drop_last().drop_last().len() == 0);
        assert(r.drop_last().last() == r[0]);
    } else if r.len() == 3 {
        assert(r.drop_last().drop_last().drop_last().len() == 0);
        assert(r.drop_last().last() == r[1]);
        assert(r.drop_last().drop_last().last() == r[0]);
    }
}

/// The coordinate of a worker along dimension `k`: the offset on axis `k`,
/// and zero where there is no such axis.
pub open spec fn coordinate(offsets: Seq<int>, k: int) -> int {
    if 0 <= k < offsets.len() {
        offsets[k]
    } else {
        0
    }
}

/// The worker at the coordinates of a candidate's offsets evaluates the
/// candidate whose flat index is the row-major position of the worker in
/// the dispatch.
pub proof fn lemma_worker_index(resolutions: Seq<int>, offsets: Seq<int>)
    requires
        resolutions.len() <= 3,
        digits_valid(resolutions, offsets),
    ensures
        encode(resolutions, offsets) == (coordinate(offsets, 0) * extent(resolutions, 1)
            + coordinate(offsets, 1)) * extent(resolutions, 2) + coordinate(offsets, 2),
{
    reveal_with_fuel(encode, 4);
    let r = resolutions;
    let d = offsets;
    if r.len() == 1 {
        assert(r.drop_last().len() == 0);
    } else if r.len() == 2 {
        assert(r.drop_last().drop_last().len() == 0);
        assert(r.drop_last().last() == r[0]);
        assert(d.drop_last().last() == d[0]);
    } else if r.len() == 3 {
        assert(r.drop_last().drop_last().drop_last().len() == 0);
        assert(r.drop_last().last() == r[1]);
        assert(d.drop_last().last() == d[1]);
        assert(r.drop_last().drop_last().last() == r[0]);
        assert(d.drop_last().drop_last().last() == d[0]);
    }
}

} // verus!
