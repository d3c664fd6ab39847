//! The Bloom filter: a bit array, a count of positions per element, and the
//! identity of the hash function that turns elements into 128-bit hashes.
use crate::bitline::{
    all_zero, and_bytes, bit_at, bytes_for, count_set, lemma_set_bit, or_bytes, set_bit,
    subset_bytes, zeros, BitLine, MAX_BYTES,
};
use crate::error::BloomError;
use crate::lcg::{distribute_entropy, index_seq, lcg_state};
use vstd::bytes::{spec_u64_from_le_bytes, spec_u64_to_le_bytes, u64_from_le_bytes, u64_to_le_bytes};
use vstd::prelude::*;
use vstd::slice::slice_subrange;

verus! {

/// A filter as plain values.
pub struct BloomView {
    /// The bytes of the bit array.
    pub bits: Seq<u8>,
    /// The number of positions selected for each element.
    pub k: u64,
    /// The identity of the custom hash function; `None` for the host's default hash.
    pub hash_func: Option<u64>,
}

/// `v` with its bits replaced by `bits`.
pub open spec fn with_bits(v: BloomView, bits: Seq<u8>) -> BloomView {
    BloomView { bits, ..v }
}

/// The number of bits of a byte string, as the `u64` that positions are reduced by.
pub open spec fn bit_len(bits: Seq<u8>) -> u64 {
    (bits.len() * 8) as u64
}

/// The bit count fits in a `u64`, and a filter that selects positions has bits.
pub open spec fn view_wf(v: BloomView) -> bool {
    &&& v.bits.len() <= MAX_BYTES
    &&& (v.k == 0 || v.bits.len() > 0)
}

/// Two filters can be combined: same position count, same size, same hash function.
pub open spec fn compatible(a: BloomView, b: BloomView) -> bool {
    &&& a.k == b.k
    &&& a.bits.len() == b.bits.len()
    &&& a.hash_func == b.hash_func
}

/// Sets the bits at the given positions, first to last.
pub open spec fn set_bits(bits: Seq<u8>, idx: Seq<u64>) -> Seq<u8>
    decreases idx.len(),
{
    if idx.len() == 0 {
        bits
    } else {
        set_bit(set_bits(bits, idx.drop_last()), idx.last() as int)
    }
}

/// The bits after inserting the element whose hash is `hash`.
pub open spec fn insert_hash(bits: Seq<u8>, k: u64, hash: i128) -> Seq<u8> {
    set_bits(bits, index_seq(hash, k as nat, bit_len(bits)))
}

/// The bits after inserting every hash of `hashes`, first to last.
pub open spec fn insert_all(bits: Seq<u8>, k: u64, hashes: Seq<i128>) -> Seq<u8>
    decreases hashes.len(),
{
    if hashes.len() == 0 {
        bits
    } else {
        insert_hash(insert_all(bits, k, hashes.drop_last()), k, hashes.last())
    }
}

/// Every position that `hash` selects is set.
pub open spec fn may_contain(bits: Seq<u8>, k: u64, hash: i128) -> bool {
    forall|j: int|
        0 <= j < k ==> bit_at(bits, #[trigger] index_seq(hash, k as nat, bit_len(bits))[j] as int)
}

/// The positions that `hash` selects lie inside a non-empty array of bits.
pub proof fn lemma_index_seq_bound(hash: i128, k: u64, bits: Seq<u8>)
    requires
        bits.len() <= MAX_BYTES,
        k == 0 || bits.len() > 0,
    ensures
        bit_len(bits) == bits.len() * 8,
        forall|m: int|
            0 <= m < k ==> #[trigger] index_seq(hash, k as nat, bit_len(bits))[m] < bits.len() * 8,
{
}

/// Setting bits inside the array keeps its length.
pub proof fn lemma_set_bits_len(bits: Seq<u8>, idx: Seq<u64>)
    requires
        forall|m: int| 0 <= m < idx.len() ==> #[trigger] idx[m] < bits.len() * 8,
    ensures
        set_bits(bits, idx).len() == bits.len(),
    decreases idx.len(),
{
    if idx.len() > 0 {
        let rest = idx.drop_last();
        assert forall|m: int| 0 <= m < rest.len() implies #[trigger] rest[m] < bits.len() * 8 by {
            assert(rest[m] == idx[m]);
        }
        lemma_set_bits_len(bits, rest);
        assert(idx[idx.len() - 1] < bits.len() * 8);
    }
}

/// After setting bits inside the array, a bit is set exactly when it was set
/// before or is one of the positions.
pub proof fn lemma_set_bits(bits: Seq<u8>, idx: Seq<u64>, j: u64)
    requires
        forall|m: int| 0 <= m < idx.len() ==> #[trigger] idx[m] < bits.len() * 8,
        j < bits.len() * 8,
    ensures
        set_bits(bits, idx).len() == bits.len(),
        bit_at(set_bits(bits, idx), j as int) == (bit_at(bits, j as int) || idx.contains(j)),
    decreases idx.len(),
{
    lemma_set_bits_len(bits, idx);
    if idx.len() > 0 {
        let rest = idx.drop_last();
        assert forall|m: int| 0 <= m < rest.len() implies #[trigger] rest[m] < bits.len() * 8 by {
            assert(rest[m] == idx[m]);
        }
        lemma_set_bits(bits, rest, j);
        let last = idx.last();
        assert(idx[idx.len() - 1] < bits.len() * 8);
        lemma_set_bit(set_bits(bits, rest), last as int, j as int);
        if rest.contains(j) {
            let m = choose|m: int| 0 <= m < rest.len() && rest[m] == j;
            assert(idx[m] == j);
        }
        if idx.contains(j) && last != j {
            let m = choose|m: int| 0 <= m < idx.len() && idx[m] == j;
            assert(m != idx.len() - 1);
            assert(rest[m] == j);
        }
        if last == j {
            assert(idx[idx.len() - 1] == j);
        }
    }
}

/// Inserting hashes keeps the length of a well-formed array.
pub proof fn lemma_insert_all_len(bits: Seq<u8>, k: u64, hashes: Seq<i128>)
    requires
        bits.len() <= MAX_BYTES,
        k == 0 || bits.len() > 0,
    ensures
        insert_all(bits, k, hashes).len() == bits.len(),
    decreases hashes.len(),
{
    if hashes.len() > 0 {
        let prev = insert_all(bits, k, hashes.drop_last());
        lemma_insert_all_len(bits, k, hashes.drop_last());
        lemma_index_seq_bound(hashes.last(), k, prev);
        lemma_set_bits_len(prev, index_seq(hashes.last(), k as nat, bit_len(prev)));
    }
}

/// Inserting an element into a well-formed array keeps its length, sets every
/// position of the element and clears no bit.
pub proof fn lemma_insert_hash(bits: Seq<u8>, k: u64, hash: i128)
    requires
        bits.len() <= MAX_BYTES,
        k == 0 || bits.len() > 0,
    ensures
        insert_hash(bits, k, hash).len() == bits.len(),
        may_contain(insert_hash(bits, k, hash), k, hash),
        forall|j: int|
            0 <= j < bits.len() * 8 && #[trigger] bit_at(bits, j) ==> bit_at(
                insert_hash(bits, k, hash),
                j,
            ),
{
    let idx = index_seq(hash, k as nat, bit_len(bits));
    lemma_index_seq_bound(hash, k, bits);
    lemma_set_bits_len(bits, idx);
    assert forall|j: int| 0 <= j < k implies bit_at(
        insert_hash(bits, k, hash),
        #[trigger] index_seq(hash, k as nat, bit_len(insert_hash(bits, k, hash)))[j] as int,
    ) by {
        lemma_set_bits(bits, idx, idx[j]);
        assert(idx[j] == idx[j]);
    }
    assert forall|j: int| 0 <= j < bits.len() * 8 && #[trigger] bit_at(bits, j) implies bit_at(
        insert_hash(bits, k, hash),
        j,
    ) by {
        lemma_set_bits(bits, idx, j as u64);
    }
}

/// The operand of a union or an intersection.
#[derive(Clone, Debug)]
pub enum Operand {
    /// Another filter, combined bit by bit.
    Filter(Bloom),
    /// The hashes of a collection of elements.
    Items(Vec<i128>),
}

/// An operand as plain values.
pub enum OperandView {
    Filter(BloomView),
    Items(Seq<i128>),
}

impl View for Operand {
    type V = OperandView;

    open spec fn view(&self) -> OperandView {
        match self {
            Operand::Filter(b) => OperandView::Filter(b@),
            Operand::Items(v) => OperandView::Items(v@),
        }
    }
}

impl Operand {
    /// A filter operand is well formed.
    pub open spec fn wf(&self) -> bool {
        match self {
            Operand::Filter(b) => b.wf(),
            Operand::Items(_) => true,
        }
    }
}

/// The operands as plain values.
pub open spec fn operand_views(ops: Seq<Operand>) -> Seq<OperandView> {
    ops.map_values(|o: Operand| o@)
}

/// A filter operand is compatible with `v`; a collection always is.
pub open spec fn operand_compatible(v: BloomView, op: OperandView) -> bool {
    match op {
        OperandView::Filter(w) => compatible(v, w),
        OperandView::Items(_) => true,
    }
}

/// Every operand is compatible with `v`.
pub open spec fn all_compatible(v: BloomView, ops: Seq<OperandView>) -> bool {
    forall|i: int| 0 <= i < ops.len() ==> operand_compatible(v, #[trigger] ops[i])
}

/// The bits an operand stands for in a filter shaped as `v`: those of a filter,
/// or those of an empty filter of that shape after inserting a collection.
pub open spec fn operand_bits(v: BloomView, op: OperandView) -> Seq<u8> {
    match op {
        OperandView::Filter(w) => w.bits,
        OperandView::Items(hashes) => insert_all(zeros(v.bits.len()), v.k, hashes),
    }
}

/// The bits of `v` after the union with each operand in turn: a filter is
/// OR-ed in, a collection inserted.
pub open spec fn union_bits(v: BloomView, ops: Seq<OperandView>) -> Seq<u8>
    decreases ops.len(),
{
    if ops.len() == 0 {
        v.bits
    } else {
        let acc = union_bits(v, ops.drop_last());
        match ops.last() {
            OperandView::Filter(w) => or_bytes(acc, w.bits),
            OperandView::Items(hashes) => insert_all(acc, v.k, hashes),
        }
    }
}

/// The bits of `v` after the intersection with each operand in turn.
pub open spec fn intersection_bits(v: BloomView, ops: Seq<OperandView>) -> Seq<u8>
    decreases ops.len(),
{
    if ops.len() == 0 {
        v.bits
    } else {
        and_bytes(intersection_bits(v, ops.drop_last()), operand_bits(v, ops.last()))
    }
}

/// `v` after the union with every operand.
pub open spec fn union_view(v: BloomView, ops: Seq<OperandView>) -> BloomView {
    with_bits(v, union_bits(v, ops))
}

/// `v` after the intersection with every operand.
pub open spec fn intersection_view(v: BloomView, ops: Seq<OperandView>) -> BloomView {
    with_bits(v, intersection_bits(v, ops))
}

/// A comparison between two filters.
#[derive(Clone, Copy, Debug, PartialEq, Eq, Structural)]
pub enum CompareOp {
    Lt,
    Le,
    Eq,
    Ne,
    Gt,
    Ge,
}

/// What a comparison of the bits `a` with the bits `b` yields: equality of the
/// arrays, or containment of their set bits.
pub open spec fn compare_bits(a: Seq<u8>, b: Seq<u8>, op: CompareOp) -> bool {
    match op {
        CompareOp::Eq => a == b,
        CompareOp::Ne => a != b,
        CompareOp::Le => subset_bytes(a, b),
        CompareOp::Lt => subset_bytes(a, b) && a != b,
        CompareOp::Ge => subset_bytes(b, a),
        CompareOp::Gt => subset_bytes(b, a) && a != b,
    }
}

/// The saved form of a filter: `k` in eight little-endian bytes, then the bit array.
pub open spec fn encode(v: BloomView) -> Seq<u8> {
    spec_u64_to_le_bytes(v.k) + v.bits
}

/// The filter that `bytes` holds, read with the custom hash function `hash_func`.
pub open spec fn decode(bytes: Seq<u8>, hash_func: u64) -> Result<BloomView, BloomError> {
    if bytes.len() < 8 {
        Err(BloomError::UnexpectedEof)
    } else {
        let k = spec_u64_from_le_bytes(bytes.take(8));
        let body = bytes.skip(8);
        if body.len() > MAX_BYTES {
            Err(BloomError::SizeTooLarge)
        } else if k > 0 && body.len() == 0 {
            Err(BloomError::UnexpectedEof)
        } else {
            Ok(BloomView { bits: body, k, hash_func: Some(hash_func) })
        }
    }
}

/// A filter over 128-bit element hashes.
#[derive(Clone, Debug)]
pub struct Bloom {
    filter: BitLine,
    k: u64,
    hash_func: Option<u64>,
}

impl View for Bloom {
    type V = BloomView;

    closed spec fn view(&self) -> BloomView {
        BloomView { bits: self.filter@, k: self.k, hash_func: self.hash_func }
    }
}

impl Bloom {
    /// The filter's invariant.
    pub open spec fn wf(&self) -> bool {
        view_wf(self@)
    }

    /// An empty filter of `size_in_bits` bits (rounded up to whole bytes) that
    /// selects `k` positions per element; `hash_func` is the identity of the
    /// custom hash function, `None` for the host's default hash.
    pub fn with_params(size_in_bits: u64, k: u64, hash_func: Option<u64>) -> (r: Result<
        Bloom,
        BloomError,
    >)
        ensures
            match r {
                Ok(b) => {
                    &&& bytes_for(size_in_bits) <= MAX_BYTES
                    &&& bytes_for(size_in_bits) <= usize::MAX
                    &&& (k == 0 || size_in_bits > 0)
                    &&& b.wf()
                    &&& b@ == BloomView { bits: zeros(bytes_for(size_in_bits)), k, hash_func }
                },
                Err(e) => {
                    ||| (bytes_for(size_in_bits) > MAX_BYTES || bytes_for(size_in_bits)
                        > usize::MAX) && e == BloomError::SizeTooLarge
                    ||| bytes_for(size_in_bits) <= MAX_BYTES && bytes_for(size_in_bits)
                        <= usize::MAX && k > 0 && size_in_bits == 0 && e
                        == BloomError::InvalidArgument
                },
            },
    {
        let filter = match BitLine::new(size_in_bits) {
            Ok(f) => f,
            Err(e) => {
                return Err(e);
            },
        };
        if k > 0 && size_in_bits == 0 {
            return Err(BloomError::InvalidArgument);
        }
        Ok(Bloom { filter, k, hash_func })
    }

    /// The number of bits of the filter.
    pub fn size_in_bits(&self) -> (r: u64)
        requires
            self.wf(),
        ensures
            r == bit_len(self@.bits),
    {
        self.filter.len()
    }

    /// The number of positions selected for each element.
    pub fn k(&self) -> (r: u64)
        ensures
            r == self@.k,
    {
        self.k
    }

    /// The identity of the custom hash function, `None` for the host's default.
    pub fn hash_func(&self) -> (r: Option<u64>)
        ensures
            r == self@.hash_func,
    {
        self.hash_func
    }

    /// The number of set bits.
    pub fn bits_set(&self) -> (r: u64)
        requires
            self.wf(),
        ensures
            r == count_set(self@.bits, self@.bits.len() * 8),
    {
        self.filter.sum()
    }

    /// Inserts the element whose hash is `hash`: sets each of its positions.
    pub fn add(&mut self, hash: i128)
        requires
            old(self).wf(),
        ensures
            final(self).wf(),
            final(self)@ == with_bits(old(self)@, insert_hash(old(self)@.bits, old(self)@.k, hash)),
            final(self)@.bits.len() == old(self)@.bits.len(),
    {
        let len = self.filter.len();
        let k = self.k;
        let ghost idx = index_seq(hash, k as nat, len);
        let mut rng = distribute_entropy(hash);
        let mut j: u64 = 0;
        while j < k
            invariant
                old(self).wf(),
                len == bit_len(old(self)@.bits),
                len == old(self)@.bits.len() * 8,
                k == old(self)@.k,
                idx == index_seq(hash, k as nat, len),
                j <= k,
                rng@ == lcg_state(hash as u128, j as nat),
                self.k == k,
                self.hash_func == old(self).hash_func,
                self@.bits == set_bits(old(self)@.bits, idx.take(j as int)),
                self@.bits.len() == old(self)@.bits.len(),
            decreases k - j,
        {
            let x = rng.next();
            let index = x % len;
            assert(idx[j as int] == index);
            self.filter.set(index);
            j = j + 1;
            assert(idx.take(j as int).drop_last() =~= idx.take(j - 1));
        }
        assert(idx.take(k as int) =~= idx);
    }

    /// Whether every position of the element whose hash is `hash` is set;
    /// stops at the first one that is not.
    pub fn contains(&self, hash: i128) -> (r: bool)
        requires
            self.wf(),
        ensures
            r == may_contain(self@.bits, self@.k, hash),
    {
        let len = self.filter.len();
        let k = self.k;
        let ghost idx = index_seq(hash, k as nat, len);
        let mut rng = distribute_entropy(hash);
        let mut j: u64 = 0;
        while j < k
            invariant
                self.wf(),
                len == bit_len(self@.bits),
                len == self@.bits.len() * 8,
                k == self@.k,
                idx == index_seq(hash, k as nat, len),
                j <= k,
                rng@ == lcg_state(hash as u128, j as nat),
                forall|m: int| 0 <= m < j ==> bit_at(self@.bits, #[trigger] idx[m] as int),
            decreases k - j,
        {
            let x = rng.next();
            let index = x % len;
            assert(idx[j as int] == index);
            if !self.filter.get(index) {
                return false;
            }
            j = j + 1;
        }
        true
    }

    /// Inserts every hash of `hashes`, first to last.
    pub fn add_all(&mut self, hashes: &Vec<i128>)
        requires
            old(self).wf(),
        ensures
            final(self).wf(),
            final(self)@ == with_bits(
                old(self)@,
                insert_all(old(self)@.bits, old(self)@.k, hashes@),
            ),
            final(self)@.bits.len() == old(self)@.bits.len(),
    {
        let n = hashes.len();
        let mut i: usize = 0;
        while i < n
            invariant
                n == hashes@.len(),
                i <= n,
                self.wf(),
                self@ == with_bits(
                    old(self)@,
                    insert_all(old(self)@.bits, old(self)@.k, hashes@.take(i as int)),
                ),
                self@.bits.len() == old(self)@.bits.len(),
            decreases n - i,
        {
            self.add(hashes[i]);
            i = i + 1;
            assert(hashes@.take(i as int).drop_last() =~= hashes@.take(i - 1));
        }
        assert(hashes@.take(n as int) =~= hashes@);
    }

    /// A copy of the filter.
    pub fn copy(&self) -> (r: Bloom)
        ensures
            r@ == self@,
    {
        Bloom { filter: self.filter.copy(), k: self.k, hash_func: self.hash_func }
    }

    /// An empty filter of the same shape and hash function.
    pub fn zeroed_clone(&self) -> (r: Bloom)
        requires
            self.wf(),
        ensures
            r.wf(),
            r@ == with_bits(self@, zeros(self@.bits.len())),
    {
        let mut filter = self.filter.copy();
        filter.clear();
        Bloom { filter, k: self.k, hash_func: self.hash_func }
    }

    /// Clears every bit; the shape and the hash function stay.
    pub fn clear(&mut self)
        requires
            old(self).wf(),
        ensures
            final(self).wf(),
            final(self)@ == with_bits(old(self)@, zeros(old(self)@.bits.len())),
    {
        self.filter.clear();
    }

    /// Whether no bit is set.
    pub fn is_empty(&self) -> (r: bool)
        ensures
            r == all_zero(self@.bits),
    {
        self.filter.is_empty()
    }

    /// Whether `other` can be combined with this filter.
    pub fn is_compatible(&self, other: &Bloom) -> (r: bool)
        ensures
            r == compatible(self@, other@),
    {
        self.k == other.k && self.filter.bits().len() == other.filter.bits().len()
            && self.hash_func == other.hash_func
    }

    /// The filter with the bits of both filters.
    pub fn bitor(&self, other: &Bloom) -> (r: Result<Bloom, BloomError>)
        requires
            self.wf(),
        ensures
            match r {
                Ok(b) => {
                    &&& compatible(self@, other@)
                    &&& b.wf()
                    &&& b@ == with_bits(self@, or_bytes(self@.bits, other@.bits))
                },
                Err(e) => !compatible(self@, other@) && e == BloomError::IncompatibleFilters,
            },
    {
        check_compatible(self, other)?;
        let filter = self.filter.bitor(&other.filter);
        Ok(Bloom { filter, k: self.k, hash_func: self.hash_func })
    }

    /// Sets every bit that is set in `other`.
    pub fn bitor_assign(&mut self, other: &Bloom) -> (r: Result<(), BloomError>)
        requires
            old(self).wf(),
        ensures
            final(self).wf(),
            match r {
                Ok(()) => {
                    &&& compatible(old(self)@, other@)
                    &&& final(self)@ == with_bits(old(self)@, or_bytes(old(self)@.bits, other@.bits))
                },
                Err(e) => {
                    &&& !compatible(old(self)@, other@)
                    &&& e == BloomError::IncompatibleFilters
                    &&& final(self)@ == old(self)@
                },
            },
    {
        check_compatible(self, other)?;
        self.filter.bitor_assign(&other.filter);
        Ok(())
    }

    /// The filter with the bits set in both filters.
    pub fn bitand(&self, other: &Bloom) -> (r: Result<Bloom, BloomError>)
        requires
            self.wf(),
        ensures
            match r {
                Ok(b) => {
                    &&& compatible(self@, other@)
                    &&& b.wf()
                    &&& b@ == with_bits(self@, and_bytes(self@.bits, other@.bits))
                },
                Err(e) => !compatible(self@, other@) && e == BloomError::IncompatibleFilters,
            },
    {
        check_compatible(self, other)?;
        let filter = self.filter.bitand(&other.filter);
        Ok(Bloom { filter, k: self.k, hash_func: self.hash_func })
    }

    /// Keeps only the bits that are also set in `other`.
    pub fn bitand_assign(&mut self, other: &Bloom) -> (r: Result<(), BloomError>)
        requires
            old(self).wf(),
        ensures
            final(self).wf(),
            match r {
                Ok(()) => {
                    &&& compatible(old(self)@, other@)
                    &&& final(self)@ == with_bits(old(self)@, and_bytes(old(self)@.bits, other@.bits))
                },
                Err(e) => {
                    &&& !compatible(old(self)@, other@)
                    &&& e == BloomError::IncompatibleFilters
                    &&& final(self)@ == old(self)@
                },
            },
    {
        check_compatible(self, other)?;
        self.filter.bitand_assign(&other.filter);
        Ok(())
    }

    /// An empty filter of the same shape after inserting every hash of `hashes`.
    fn items_as_bloom(&self, hashes: &Vec<i128>) -> (r: Bloom)
        requires
            self.wf(),
        ensures
            r.wf(),
            compatible(self@, r@),
            r@.bits == insert_all(zeros(self@.bits.len()), self@.k, hashes@),
    {
        let mut other = self.zeroed_clone();
        other.add_all(hashes);
        other
    }

    /// Refuses the operands unless every filter among them is compatible.
    fn check_operands(&self, others: &Vec<Operand>) -> (r: Result<(), BloomError>)
        ensures
            match r {
                Ok(()) => all_compatible(self@, operand_views(others@)),
                Err(e) => {
                    &&& !all_compatible(self@, operand_views(others@))
                    &&& e == BloomError::IncompatibleFilters
                },
            },
    {
        let ghost ops = operand_views(others@);
        let n = others.len();
        let mut i: usize = 0;
        while i < n
            invariant
                n == others@.len(),
                ops == operand_views(others@),
                i <= n,
                forall|j: int| 0 <= j < i ==> operand_compatible(self@, #[trigger] ops[j]),
            decreases n - i,
        {
            match &others[i] {
                Operand::Filter(b) => {
                    if !self.is_compatible(b) {
                        assert(!operand_compatible(self@, ops[i as int]));
                        return Err(BloomError::IncompatibleFilters);
                    }
                },
                Operand::Items(_) => {},
            }
            i = i + 1;
        }
        Ok(())
    }

    /// Adds every operand in turn: a filter's bits are OR-ed in, a collection's
    /// elements inserted. Nothing changes unless every filter among the
    /// operands is compatible.
    pub fn update(&mut self, others: &Vec<Operand>) -> (r: Result<(), BloomError>)
        requires
            old(self).wf(),
            forall|i: int| 0 <= i < others@.len() ==> #[trigger] others@[i].wf(),
        ensures
            final(self).wf(),
            match r {
                Ok(()) => all_compatible(old(self)@, operand_views(others@)) && final(self)@
                    == union_view(old(self)@, operand_views(others@)),
                Err(e) => !all_compatible(old(self)@, operand_views(others@)) && e
                    == BloomError::IncompatibleFilters && final(self)@ == old(self)@,
            },
    {
        self.check_operands(others)?;
        let ghost ops = operand_views(others@);
        let n = others.len();
        let mut i: usize = 0;
        while i < n
            invariant
                n == others@.len(),
                ops == operand_views(others@),
                forall|j: int| 0 <= j < others@.len() ==> #[trigger] others@[j].wf(),
                all_compatible(old(self)@, ops),
                i <= n,
                self.wf(),
                self@ == union_view(old(self)@, ops.take(i as int)),
                self@.bits.len() == old(self)@.bits.len(),
            decreases n - i,
        {
            assert(ops.take(i + 1).drop_last() =~= ops.take(i as int));
            assert(operand_compatible(old(self)@, ops[i as int]));
            match &others[i] {
                Operand::Filter(b) => {
                    self.filter.bitor_assign(&b.filter);
                },
                Operand::Items(hashes) => {
                    self.add_all(hashes);
                },
            }
            i = i + 1;
        }
        assert(ops.take(n as int) =~= ops);
        Ok(())
    }

    /// Intersects with every operand in turn: with a filter's bits, or with
    /// those of an empty filter of this shape after inserting a collection.
    /// Nothing changes unless every filter among the operands is compatible.
    pub fn intersection_update(&mut self, others: &Vec<Operand>) -> (r: Result<(), BloomError>)
        requires
            old(self).wf(),
            forall|i: int| 0 <= i < others@.len() ==> #[trigger] others@[i].wf(),
        ensures
            final(self).wf(),
            match r {
                Ok(()) => all_compatible(old(self)@, operand_views(others@)) && final(self)@
                    == intersection_view(old(self)@, operand_views(others@)),
                Err(e) => !all_compatible(old(self)@, operand_views(others@)) && e
                    == BloomError::IncompatibleFilters && final(self)@ == old(self)@,
            },
    {
        self.check_operands(others)?;
        let ghost ops = operand_views(others@);
        let n = others.len();
        let mut i: usize = 0;
        while i < n
            invariant
                n == others@.len(),
                ops == operand_views(others@),
                forall|j: int| 0 <= j < others@.len() ==> #[trigger] others@[j].wf(),
                all_compatible(old(self)@, ops),
                i <= n,
                self.wf(),
                self@ == intersection_view(old(self)@, ops.take(i as int)),
                self@.bits.len() == old(self)@.bits.len(),
            decreases n - i,
        {
            assert(ops.take(i + 1).drop_last() =~= ops.take(i as int));
            assert(operand_compatible(old(self)@, ops[i as int]));
            match &others[i] {
                Operand::Filter(b) => {
                    self.filter.bitand_assign(&b.filter);
                },
                Operand::Items(hashes) => {
                    let scratch = self.items_as_bloom(hashes);
                    self.filter.bitand_assign(&scratch.filter);
                },
            }
            i = i + 1;
        }
        assert(ops.take(n as int) =~= ops);
        Ok(())
    }

    /// A new filter holding this one's bits after the union with every operand.
    pub fn union(&self, others: &Vec<Operand>) -> (r: Result<Bloom, BloomError>)
        requires
            self.wf(),
            forall|i: int| 0 <= i < others@.len() ==> #[trigger] others@[i].wf(),
        ensures
            match r {
                Ok(b) => {
                    &&& all_compatible(self@, operand_views(others@))
                    &&& b.wf()
                    &&& b@ == union_view(self@, operand_views(others@))
                },
                Err(e) => !all_compatible(self@, operand_views(others@)) && e
                    == BloomError::IncompatibleFilters,
            },
    {
        let mut result = self.copy();
        result.update(others)?;
        Ok(result)
    }

    /// A new filter holding this one's bits after the intersection with every operand.
    pub fn intersection(&self, others: &Vec<Operand>) -> (r: Result<Bloom, BloomError>)
        requires
            self.wf(),
            forall|i: int| 0 <= i < others@.len() ==> #[trigger] others@[i].wf(),
        ensures
            match r {
                Ok(b) => all_compatible(self@, operand_views(others@)) && b.wf() && b@
                    == intersection_view(self@, operand_views(others@)),
                Err(e) => !all_compatible(self@, operand_views(others@)) && e
                    == BloomError::IncompatibleFilters,
            },
    {
        let mut result = self.copy();
        result.intersection_update(others)?;
        Ok(result)
    }

    /// Whether every bit set here is set in the operand's bits. Never wrong
    /// when it answers `false`; may answer `true` for a collection whose
    /// elements are not all here.
    pub fn issubset(&self, other: &Operand) -> (r: Result<bool, BloomError>)
        requires
            self.wf(),
            other.wf(),
        ensures
            match r {
                Ok(x) => operand_compatible(self@, other@) && x == subset_bytes(
                    self@.bits,
                    operand_bits(self@, other@),
                ),
                Err(e) => {
                    &&& !operand_compatible(self@, other@)
                    &&& e == BloomError::IncompatibleFilters
                },
            },
    {
        match other {
            Operand::Filter(b) => {
                check_compatible(self, b)?;
                Ok(self.filter.is_subset(&b.filter))
            },
            Operand::Items(hashes) => {
                let b = self.items_as_bloom(hashes);
                Ok(self.filter.is_subset(&b.filter))
            },
        }
    }

    /// Whether every bit set in the operand's bits is set here.
    pub fn issuperset(&self, other: &Operand) -> (r: Result<bool, BloomError>)
        requires
            self.wf(),
            other.wf(),
        ensures
            match r {
                Ok(x) => operand_compatible(self@, other@) && x == subset_bytes(
                    operand_bits(self@, other@),
                    self@.bits,
                ),
                Err(e) => {
                    &&& !operand_compatible(self@, other@)
                    &&& e == BloomError::IncompatibleFilters
                },
            },
    {
        match other {
            Operand::Filter(b) => {
                check_compatible(self, b)?;
                Ok(b.filter.is_subset(&self.filter))
            },
            Operand::Items(hashes) => {
                let b = self.items_as_bloom(hashes);
                Ok(b.filter.is_subset(&self.filter))
            },
        }
    }

    /// Compares the bits of two compatible filters: `Eq` and `Ne` by equality,
    /// `Le` and `Ge` by containment, `Lt` and `Gt` by strict containment.
    pub fn richcmp(&self, other: &Bloom, op: CompareOp) -> (r: Result<bool, BloomError>)
        ensures
            match r {
                Ok(x) => {
                    &&& compatible(self@, other@)
                    &&& x == compare_bits(self@.bits, other@.bits, op)
                },
                Err(e) => !compatible(self@, other@) && e == BloomError::IncompatibleFilters,
            },
    {
        check_compatible(self, other)?;
        let x = match op {
            CompareOp::Eq => self.filter == other.filter,
            CompareOp::Ne => !(self.filter == other.filter),
            CompareOp::Le => self.filter.is_subset(&other.filter),
            CompareOp::Lt => self.filter.is_strict_subset(&other.filter),
            CompareOp::Ge => other.filter.is_subset(&self.filter),
            CompareOp::Gt => other.filter.is_strict_subset(&self.filter),
        };
        Ok(x)
    }

    /// The saved form of the filter; refused for a filter that relies on the
    /// host's default hash.
    pub fn save_bytes(&self) -> (r: Result<Vec<u8>, BloomError>)
        ensures
            match r {
                Ok(v) => self@.hash_func is Some && v@ == encode(self@),
                Err(e) => self@.hash_func is None && e == BloomError::InvalidState,
            },
    {
        if self.hash_func.is_none() {
            return Err(BloomError::InvalidState);
        }
        let mut out = u64_to_le_bytes(self.k);
        self.filter.save(&mut out);
        Ok(out)
    }

    /// Reads a saved filter, which will use the custom hash function `hash_func`.
    pub fn load_bytes(bytes: &[u8], hash_func: u64) -> (r: Result<Bloom, BloomError>)
        ensures
            match r {
                Ok(b) => b.wf() && decode(bytes@, hash_func) == Ok::<BloomView, BloomError>(b@),
                Err(e) => decode(bytes@, hash_func) == Err::<BloomView, BloomError>(e),
            },
    {
        if bytes.len() < 8 {
            return Err(BloomError::UnexpectedEof);
        }
        let head = slice_subrange(bytes, 0, 8);
        assert(head@ =~= bytes@.take(8));
        let k = u64_from_le_bytes(head);
        let body = slice_subrange(bytes, 8, bytes.len());
        assert(body@ =~= bytes@.skip(8));
        let filter = BitLine::load_bytes(body)?;
        if k > 0 && filter.bits().len() == 0 {
            return Err(BloomError::UnexpectedEof);
        }
        Ok(Bloom { filter, k, hash_func: Some(hash_func) })
    }
}

/// Refuses to combine two filters that differ in position count, in size or
/// in hash function.
pub fn check_compatible(a: &Bloom, b: &Bloom) -> (r: Result<(), BloomError>)
    ensures
        match r {
            Ok(()) => compatible(a@, b@),
            Err(e) => !compatible(a@, b@) && e == BloomError::IncompatibleFilters,
        },
{
    if a.is_compatible(b) {
        Ok(())
    } else {
        Err(BloomError::IncompatibleFilters)
    }
}

} // verus!
