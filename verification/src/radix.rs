//! Mixed-radix numbers: the correspondence between a flat index and one digit
//! per axis, the first axis being the most significant.

use vstd::prelude::*;

verus! {

/// Every radix is at least one.
pub open spec fn radices_valid(radices: Seq<int>) -> bool {
    forall|k: int| 0 <= k < radices.len() ==> #[trigger] radices[k] >= 1
}

/// One digit per radix, each below its radix.
pub open spec fn digits_valid(radices: Seq<int>, digits: Seq<int>) -> bool {
    &&& digits.len() == radices.len()
    &&& forall|k: int| 0 <= k < digits.len() ==> 0 <= #[trigger] digits[k] < radices[k]
}

/// The number of digit tuples: the product of the radices.
pub open spec fn product(radices: Seq<int>) -> int
    decreases radices.len(),
{
    if radices.len() == 0 {
        1
    } else {
        product(radices.drop_last()) * radices.last()
    }
}

/// The digits of `index`: the last digit is the remainder by the last radix,
/// the digits before it are those of the quotient.
pub open spec fn decode(radices: Seq<int>, index: int) -> Seq<int>
    decreases radices.len(),
{
    if radices.len() == 0 {
        Seq::empty()
    } else {
        decode(radices.drop_last(), index / radices.last()).push(index % radices.last())
    }
}

/// The index of a digit tuple: each step multiplies by the next radix and
/// adds the next digit.
pub open spec fn encode(radices: Seq<int>, digits: Seq<int>) -> int
    decreases radices.len(),
{
    if radices.len() == 0 {
        0
    } else {
        encode(radices.drop_last(), digits.drop_last()) * radices.last() + digits.last()
    }
}

/// Valid radices stay valid without the last one.
proof fn lemma_radices_drop_last(radices: Seq<int>)
    requires
        radices_valid(radices),
        radices.len() > 0,
    ensures
        radices_valid(radices.drop_last()),
        radices.last() >= 1,
{
    let head = radices.drop_last();
    assert forall|k: int| 0 <= k < head.len() implies #[trigger] head[k] >= 1 by {
        assert(head[k] == radices[k]);
    }
    assert(radices.last() == radices[radices.len() - 1]);
}

/// Valid digits stay valid without the last one.
proof fn lemma_digits_drop_last(radices: Seq<int>, digits: Seq<int>)
    requires
        digits_valid(radices, digits),
        radices.len() > 0,
    ensures
        digits_valid(radices.drop_last(), digits.drop_last()),
        0 <= digits.last() < radices.last(),
{
    let head = radices.drop_last();
    let init = digits.drop_last();
    assert forall|k: int| 0 <= k < init.len() implies 0 <= #[trigger] init[k] < head[k] by {
        assert(init[k] == digits[k]);
        assert(head[k] == radices[k]);
    }
    assert(digits.last() == digits[digits.len() - 1]);
    assert(radices.last() == radices[radices.len() - 1]);
}

/// There is at least one digit tuple.
pub proof fn lemma_product_positive(radices: Seq<int>)
    requires
        radices_valid(radices),
    ensures
        product(radices) >= 1,
    decreases radices.len(),
{
    if radices.len() > 0 {
        let head = radices.drop_last();
        lemma_radices_drop_last(radices);
        lemma_product_positive(head);
        assert(product(head) * radices.last() >= 1) by (nonlinear_arith)
            requires
                product(head) >= 1,
                radices.last() >= 1,
        ;
    }
}

/// A prefix of the radices has no more tuples than the whole.
pub proof fn lemma_product_prefix(radices: Seq<int>, k: int)
    requires
        radices_valid(radices),
        0 <= k <= radices.len(),
    ensures
        1 <= product(radices.take(k)) <= product(radices),
    decreases radices.len() - k,
{
    let prefix = radices.take(k);
    assert(radices_valid(prefix)) by {
        assert forall|j: int| 0 <= j < prefix.len() implies #[trigger] prefix[j] >= 1 by {
            assert(prefix[j] == radices[j]);
        }
    }
    lemma_product_positive(prefix);
    if k == radices.len() {
        assert(prefix =~= radices);
    } else {
        let next = radices.take(k + 1);
        assert(next.drop_last() =~= prefix);
        assert(next.last() == radices[k]);
        lemma_product_prefix(radices, k + 1);
        assert(product(prefix) <= product(prefix) * radices[k]) by (nonlinear_arith)
            requires
                product(prefix) >= 1,
                radices[k] >= 1,
        ;
    }
}

/// An index has one digit per radix, and an index below the product has
/// every digit below its radix.
pub proof fn lemma_decode_valid(radices: Seq<int>, index: int)
    requires
        radices_valid(radices),
        0 <= index,
    ensures
        decode(radices, index).len() == radices.len(),
        index < product(radices) ==> digits_valid(radices, decode(radices, index)),
    decreases radices.len(),
{
    if radices.len() > 0 {
        let head = radices.drop_last();
        let last = radices.last();
        lemma_radices_drop_last(radices);
        let q = index / last;
        assert(0 <= q) by (nonlinear_arith)
            requires
                q == index / last,
                0 <= index,
                last >= 1,
        ;
        lemma_decode_valid(head, q);
        if index < product(radices) {
            assert(q < product(head)) by (nonlinear_arith)
                requires
                    q == index / last,
                    0 <= index < product(head) * last,
                    last >= 1,
            ;
            let d = decode(radices, index);
            assert forall|k: int| 0 <= k < d.len() implies 0 <= #[trigger] d[k] < radices[k] by {
                if k < head.len() {
                    assert(d[k] == decode(head, q)[k]);
                    assert(radices[k] == head[k]);
                }
            }
        }
    }
}

/// The index of a valid digit tuple is below the product of the radices.
pub proof fn lemma_encode_bound(radices: Seq<int>, digits: Seq<int>)
    requires
        radices_valid(radices),
        digits_valid(radices, digits),
    ensures
        0 <= encode(radices, digits) < product(radices),
    decreases radices.len(),
{
    if radices.len() > 0 {
        let head = radices.drop_last();
        let init = digits.drop_last();
        let last = radices.last();
        lemma_radices_drop_last(radices);
        lemma_digits_drop_last(radices, digits);
        lemma_encode_bound(head, init);
        let e = encode(head, init);
        let p = product(head);
        let d = digits.last();
        assert(0 <= e * last + d < p * last) by (nonlinear_arith)
            requires
                0 <= e < p,
                0 <= d < last,
        ;
    }
}

/// Decoding an index and encoding the digits again gives the index back.
pub proof fn lemma_encode_decode(radices: Seq<int>, index: int)
    requires
        radices_valid(radices),
        0 <= index < product(radices),
    ensures
        encode(radices, decode(radices, index)) == index,
    decreases radices.len(),
{
    if radices.len() > 0 {
        let head = radices.drop_last();
        let last = radices.last();
        lemma_radices_drop_last(radices);
        let q = index / last;
        let r = index % last;
        assert(0 <= q < product(head) && index == q * last + r) by (nonlinear_arith)
            requires
                q == index / last,
                r == index % last,
                0 <= index < product(head) * last,
                last >= 1,
        ;
        lemma_encode_decode(head, q);
        let d = decode(radices, index);
        assert(d.drop_last() =~= decode(head, q));
        assert(d.last() == r);
    }
}

/// Encoding a valid digit tuple and decoding the index gives the digits back.
pub proof fn lemma_decode_encode(radices: Seq<int>, digits: Seq<int>)
    requires
        radices_valid(radices),
        digits_valid(radices, digits),
    ensures
        decode(radices, encode(radices, digits)) == digits,
    decreases radices.len(),
{
    if radices.len() == 0 {
        assert(digits =~= Seq::<int>::empty());
    } else {
        let head = radices.drop_last();
        let init = digits.drop_last();
        let last = radices.last();
        lemma_radices_drop_last(radices);
        lemma_digits_drop_last(radices, digits);
        lemma_encode_bound(head, init);
        lemma_decode_encode(head, init);
        let e = encode(head, init);
        let d = digits.last();
        let index = e * last + d;
        assert(index / last == e && index % last == d) by (nonlinear_arith)
            requires
                index == e * last + d,
                0 <= d < last,
                0 <= e,
        ;
        assert(decode(radices, index) =~= init.push(d));
        assert(init.push(d) =~= digits);
    }
}

/// Two indices below the product with the same digits are the same index.
pub proof fn lemma_decode_injective(radices: Seq<int>, i: int, j: int)
    requires
        radices_valid(radices),
        0 <= i < product(radices),
        0 <= j < product(radices),
        decode(radices, i) == decode(radices, j),
    ensures
        i == j,
{
    lemma_encode_decode(radices, i);
    lemma_encode_decode(radices, j);
}

/// Radices as mathematical integers.
pub open spec fn radices_of(radices: Seq<u64>) -> Seq<int> {
    Seq::new(radices.len(), |k: int| radices[k] as int)
}

/// The largest product that `k` radices below 2^33 can have, for `k` up to
/// three.
spec fn product_limit(k: int) -> int {
    if k <= 0 {
        1
    } else if k == 1 {
        0x2_0000_0000
    } else if k == 2 {
        0x4_0000_0000_0000_0000
    } else {
        0x8_0000_0000_0000_0000_0000_0000
    }
}

proof fn lemma_product_limit_step(acc: int, r: int, k: int)
    requires
        0 <= k < 3,
        0 <= acc <= product_limit(k),
        0 <= r < 0x2_0000_0000,
    ensures
        0 <= acc * r <= product_limit(k + 1),
{
    assert(0 <= acc * r <= product_limit(k) * 0x2_0000_0000) by (nonlinear_arith)
        requires
            0 <= acc <= product_limit(k),
            0 <= r < 0x2_0000_0000,
    ;
}

/// The product of up to three radices, each below 2^33: it has fewer than
/// a hundred bits.
pub(crate) fn product_of(radices: &Vec<u64>) -> (p: u128)
    requires
        radices.len() <= 3,
        forall|k: int| 0 <= k < radices.len() ==> #[trigger] radices[k] < 0x2_0000_0000,
    ensures
        p == product(radices_of(radices@)),
{
    let n = radices.len();
    let ghost ints = radices_of(radices@);
    let mut acc: u128 = 1;
    let mut k: usize = 0;
    while k < n
        invariant
            k <= n <= 3,
            n == radices.len(),
            ints == radices_of(radices@),
            forall|j: int| 0 <= j < radices.len() ==> #[trigger] radices[j] < 0x2_0000_0000,
            acc == product(ints.take(k as int)),
            acc <= product_limit(k as int),
        decreases n - k,
    {
        let r = radices[k];
        proof {
            let next = ints.take(k + 1);
            assert(next.drop_last() =~= ints.take(k as int));
            assert(next.last() == r);
            lemma_product_limit_step(acc as int, r as int, k as int);
        }
        acc = acc * (r as u128);
        k += 1;
    }
    proof {
        assert(ints.take(n as int) =~= ints);
    }
    acc
}

} // verus!
