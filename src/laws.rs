//! Properties that hold across the operations of a filter.
use crate::bitline::{and_bytes, bit_at, lemma_subset_bit, or_bytes, subset_bytes, MAX_BYTES};
use crate::error::BloomError;
use crate::filter::{
    all_compatible, bit_len, compatible, decode, encode, insert_all, insert_hash,
    intersection_bits, intersection_view, lemma_index_seq_bound, lemma_insert_all_len,
    lemma_insert_hash, may_contain, operand_compatible, union_bits, union_view, view_wf, BloomView,
    OperandView,
};
use crate::lcg::index_seq;
use vstd::bytes::lemma_auto_spec_u64_to_from_le_bytes;
use vstd::prelude::*;

verus! {

/// Every bit set in `a` is set in `b`, for byte strings of one length.
pub open spec fn bits_within(a: Seq<u8>, b: Seq<u8>) -> bool {
    &&& a.len() == b.len()
    &&& forall|j: int| 0 <= j < a.len() * 8 && #[trigger] bit_at(a, j) ==> bit_at(b, j)
}

/// A filter whose bits include those of another, with the same position
/// count, reports every element that the other one reports.
pub proof fn lemma_contains_monotone(a: Seq<u8>, b: Seq<u8>, k: u64, hash: i128)
    requires
        a.len() <= MAX_BYTES,
        k == 0 || a.len() > 0,
        bits_within(a, b),
        may_contain(a, k, hash),
    ensures
        may_contain(b, k, hash),
{
    lemma_index_seq_bound(hash, k, a);
    assert forall|j: int| 0 <= j < k implies bit_at(
        b,
        #[trigger] index_seq(hash, k as nat, bit_len(b))[j] as int,
    ) by {
        let i = index_seq(hash, k as nat, bit_len(a))[j];
        assert(bit_at(a, i as int));
    }
}

/// Byte-wise containment is containment of every bit.
pub proof fn lemma_subset_bytes_within(a: Seq<u8>, b: Seq<u8>)
    requires
        a.len() == b.len(),
        subset_bytes(a, b),
    ensures
        bits_within(a, b),
{
    assert forall|j: int| 0 <= j < a.len() * 8 && #[trigger] bit_at(a, j) implies bit_at(b, j) by {
        lemma_subset_bit(a, b, j);
    }
}

/// Inserting hashes only sets bits.
pub proof fn lemma_insert_all_within(bits: Seq<u8>, k: u64, hashes: Seq<i128>)
    requires
        bits.len() <= MAX_BYTES,
        k == 0 || bits.len() > 0,
    ensures
        bits_within(bits, insert_all(bits, k, hashes)),
    decreases hashes.len(),
{
    lemma_insert_all_len(bits, k, hashes);
    if hashes.len() > 0 {
        let prev = insert_all(bits, k, hashes.drop_last());
        lemma_insert_all_within(bits, k, hashes.drop_last());
        lemma_insert_all_len(bits, k, hashes.drop_last());
        lemma_insert_hash(prev, k, hashes.last());
    }
}

/// OR-ing in bits of the same length only sets bits.
pub proof fn lemma_or_within(a: Seq<u8>, b: Seq<u8>)
    requires
        a.len() == b.len(),
    ensures
        subset_bytes(a, or_bytes(a, b)),
        subset_bytes(b, or_bytes(a, b)),
        bits_within(a, or_bytes(a, b)),
        bits_within(b, or_bytes(a, b)),
{
    let u = or_bytes(a, b);
    assert forall|i: int| 0 <= i < a.len() implies #[trigger] (a[i] | u[i]) == u[i] by {
        let x = a[i];
        let y = b[i];
        assert((x | (x | y)) == (x | y)) by (bit_vector);
    }
    assert forall|i: int| 0 <= i < b.len() implies #[trigger] (b[i] | u[i]) == u[i] by {
        let x = a[i];
        let y = b[i];
        assert((y | (x | y)) == (x | y)) by (bit_vector);
    }
    lemma_subset_bytes_within(a, u);
    lemma_subset_bytes_within(b, u);
}

/// No false negatives: once the element whose hash is `hash` has been added,
/// the filter reports it.
pub proof fn lemma_no_false_negatives(f: BloomView, hash: i128)
    requires
        view_wf(f),
    ensures
        may_contain(insert_hash(f.bits, f.k, hash), f.k, hash),
{
    lemma_insert_hash(f.bits, f.k, hash);
}

/// An element that the filter reports stays reported after adding any other
/// element.
pub proof fn lemma_add_keeps_contains(f: BloomView, hash: i128, other: i128)
    requires
        view_wf(f),
        may_contain(f.bits, f.k, hash),
    ensures
        may_contain(insert_hash(f.bits, f.k, other), f.k, hash),
{
    lemma_insert_hash(f.bits, f.k, other);
    lemma_contains_monotone(f.bits, insert_hash(f.bits, f.k, other), f.k, hash);
}

/// A union with compatible operands only sets bits.
pub proof fn lemma_union_within(f: BloomView, ops: Seq<OperandView>)
    requires
        view_wf(f),
        all_compatible(f, ops),
    ensures
        bits_within(f.bits, union_bits(f, ops)),
    decreases ops.len(),
{
    if ops.len() > 0 {
        let rest = ops.drop_last();
        assert forall|i: int| 0 <= i < rest.len() implies operand_compatible(
            f,
            #[trigger] rest[i],
        ) by {
            assert(rest[i] == ops[i]);
        }
        lemma_union_within(f, rest);
        let acc = union_bits(f, rest);
        assert(operand_compatible(f, ops[ops.len() - 1]));
        match ops.last() {
            OperandView::Filter(w) => {
                lemma_or_within(acc, w.bits);
            },
            OperandView::Items(hashes) => {
                lemma_insert_all_within(acc, f.k, hashes);
            },
        }
    }
}

/// An element that the filter reports stays reported after a union with
/// compatible operands.
pub proof fn lemma_update_keeps_contains(f: BloomView, ops: Seq<OperandView>, hash: i128)
    requires
        view_wf(f),
        all_compatible(f, ops),
        may_contain(f.bits, f.k, hash),
    ensures
        may_contain(union_view(f, ops).bits, f.k, hash),
{
    lemma_union_within(f, ops);
    lemma_contains_monotone(f.bits, union_bits(f, ops), f.k, hash);
}

/// For compatible filters `a` and `b`, `a.union(b)` is compatible with both
/// and holds the bits of each, and `a.intersection(b)` is compatible with both
/// and holds only bits of each.
pub proof fn lemma_subset_laws(a: BloomView, b: BloomView)
    requires
        view_wf(a),
        view_wf(b),
        compatible(a, b),
    ensures
        all_compatible(a, seq![OperandView::Filter(b)]),
        compatible(union_view(a, seq![OperandView::Filter(b)]), a),
        compatible(union_view(a, seq![OperandView::Filter(b)]), b),
        subset_bytes(a.bits, union_view(a, seq![OperandView::Filter(b)]).bits),
        subset_bytes(b.bits, union_view(a, seq![OperandView::Filter(b)]).bits),
        compatible(intersection_view(a, seq![OperandView::Filter(b)]), a),
        compatible(intersection_view(a, seq![OperandView::Filter(b)]), b),
        subset_bytes(intersection_view(a, seq![OperandView::Filter(b)]).bits, a.bits),
        subset_bytes(intersection_view(a, seq![OperandView::Filter(b)]).bits, b.bits),
{
    let ops = seq![OperandView::Filter(b)];
    assert(ops.drop_last() =~= Seq::<OperandView>::empty());
    assert(ops.last() == OperandView::Filter(b));
    assert(union_bits(a, ops.drop_last()) == a.bits);
    assert(union_bits(a, ops) == or_bytes(a.bits, b.bits));
    assert(intersection_bits(a, ops.drop_last()) == a.bits);
    assert(intersection_bits(a, ops) == and_bytes(a.bits, b.bits));
    assert(all_compatible(a, ops)) by {
        assert forall|i: int| 0 <= i < ops.len() implies operand_compatible(
            a,
            #[trigger] ops[i],
        ) by {
            assert(ops[i] == OperandView::Filter(b));
        }
    }
    lemma_or_within(a.bits, b.bits);
    let n = and_bytes(a.bits, b.bits);
    assert forall|i: int| 0 <= i < n.len() implies #[trigger] (n[i] | a.bits[i]) == a.bits[i] by {
        let x = a.bits[i];
        let y = b.bits[i];
        assert(((x & y) | x) == x) by (bit_vector);
    }
    assert forall|i: int| 0 <= i < n.len() implies #[trigger] (n[i] | b.bits[i]) == b.bits[i] by {
        let x = a.bits[i];
        let y = b.bits[i];
        assert(((x & y) | y) == y) by (bit_vector);
    }
}

/// A union or an intersection of a filter with itself leaves it as it is.
pub proof fn lemma_self_union_intersection(a: BloomView)
    requires
        view_wf(a),
    ensures
        all_compatible(a, seq![OperandView::Filter(a)]),
        union_view(a, seq![OperandView::Filter(a)]) == a,
        intersection_view(a, seq![OperandView::Filter(a)]) == a,
{
    let ops = seq![OperandView::Filter(a)];
    assert(ops.drop_last() =~= Seq::<OperandView>::empty());
    assert(ops.last() == OperandView::Filter(a));
    assert(union_bits(a, ops.drop_last()) == a.bits);
    assert(union_bits(a, ops) == or_bytes(a.bits, a.bits));
    assert(intersection_bits(a, ops.drop_last()) == a.bits);
    assert(intersection_bits(a, ops) == and_bytes(a.bits, a.bits));
    assert(all_compatible(a, ops)) by {
        assert forall|i: int| 0 <= i < ops.len() implies operand_compatible(
            a,
            #[trigger] ops[i],
        ) by {
            assert(ops[i] == OperandView::Filter(a));
        }
    }
    assert forall|i: int| 0 <= i < a.bits.len() implies (#[trigger] a.bits[i] | a.bits[i])
        == a.bits[i] && (a.bits[i] & a.bits[i]) == a.bits[i] by {
        let x = a.bits[i];
        assert((x | x) == x && (x & x) == x) by (bit_vector);
    }
    assert(or_bytes(a.bits, a.bits) =~= a.bits);
    assert(and_bytes(a.bits, a.bits) =~= a.bits);
}

/// Reading the saved form of a filter with its own custom hash function gives
/// the filter back: the same position count, bits and hash function.
pub proof fn lemma_save_load_round_trip(f: BloomView, hash_func: u64)
    requires
        view_wf(f),
        f.hash_func == Some(hash_func),
    ensures
        decode(encode(f), hash_func) == Ok::<BloomView, BloomError>(f),
{
    lemma_auto_spec_u64_to_from_le_bytes();
    let bytes = encode(f);
    assert(bytes.take(8) =~= vstd::bytes::spec_u64_to_le_bytes(f.k));
    assert(bytes.skip(8) =~= f.bits);
}

} // verus!
