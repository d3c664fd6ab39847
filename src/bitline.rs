//! A fixed-length array of bits stored in bytes, least significant bit first.
use crate::error::BloomError;
use vstd::prelude::*;

verus! {

/// The largest number of bytes whose bit count a `u64` can hold.
pub const MAX_BYTES: u64 = 0x1FFF_FFFF_FFFF_FFFF;

/// Whether bit `i` of the byte string is set: bit `i % 8` of byte `i / 8`.
pub open spec fn bit_at(bytes: Seq<u8>, i: int) -> bool {
    bytes[i / 8] & (1u8 << ((i % 8) as u8)) != 0
}

/// The byte string with bit `i` set.
pub open spec fn set_bit(bytes: Seq<u8>, i: int) -> Seq<u8> {
    bytes.update(i / 8, bytes[i / 8] | (1u8 << ((i % 8) as u8)))
}

/// `n` zero bytes.
pub open spec fn zeros(n: nat) -> Seq<u8> {
    Seq::new(n, |i: int| 0u8)
}

/// The number of bytes that hold `size_in_bits` bits.
pub open spec fn bytes_for(size_in_bits: u64) -> nat {
    ((size_in_bits as nat + 7) / 8) as nat
}

/// Byte-wise OR of two byte strings of the length of `a`.
pub open spec fn or_bytes(a: Seq<u8>, b: Seq<u8>) -> Seq<u8> {
    Seq::new(a.len(), |i: int| a[i] | b[i])
}

/// Byte-wise AND of two byte strings of the length of `a`.
pub open spec fn and_bytes(a: Seq<u8>, b: Seq<u8>) -> Seq<u8> {
    Seq::new(a.len(), |i: int| a[i] & b[i])
}

/// Every bit set in `a` is set in `b`, compared byte by byte.
pub open spec fn subset_bytes(a: Seq<u8>, b: Seq<u8>) -> bool {
    forall|i: int| 0 <= i < a.len() ==> #[trigger] (a[i] | b[i]) == b[i]
}

/// Every byte is zero.
pub open spec fn all_zero(a: Seq<u8>) -> bool {
    forall|i: int| 0 <= i < a.len() ==> #[trigger] a[i] == 0
}

/// The number of set bits among the first `n` bit positions.
pub open spec fn count_set(bytes: Seq<u8>, n: nat) -> nat
    decreases n,
{
    if n == 0 {
        0
    } else {
        count_set(bytes, (n - 1) as nat) + if bit_at(bytes, n - 1) {
            1nat
        } else {
            0nat
        }
    }
}

/// Setting one bit of a byte leaves the other bits as they were.
pub proof fn lemma_byte_set_bit(x: u8, o1: u8, o2: u8)
    requires
        o1 < 8,
        o2 < 8,
    ensures
        ((x | (1u8 << o1)) & (1u8 << o2) != 0) == ((x & (1u8 << o2) != 0) || o1 == o2),
{
    assert(((x | (1u8 << o1)) & (1u8 << o2) != 0) == ((x & (1u8 << o2) != 0) || o1 == o2))
        by (bit_vector)
        requires
            o1 < 8,
            o2 < 8,
    ;
}

/// After setting bit `i`, bit `j` is set exactly when it was set before or `j` is `i`.
pub proof fn lemma_set_bit(bytes: Seq<u8>, i: int, j: int)
    requires
        0 <= i < bytes.len() * 8,
        0 <= j < bytes.len() * 8,
    ensures
        bit_at(set_bit(bytes, i), j) == (bit_at(bytes, j) || i == j),
        set_bit(bytes, i).len() == bytes.len(),
{
    if i / 8 == j / 8 {
        lemma_byte_set_bit(bytes[i / 8], (i % 8) as u8, (j % 8) as u8);
    }
}

/// Byte-wise containment carries over to every bit.
pub proof fn lemma_subset_bit(a: Seq<u8>, b: Seq<u8>, j: int)
    requires
        a.len() == b.len(),
        subset_bytes(a, b),
        0 <= j < a.len() * 8,
        bit_at(a, j),
    ensures
        bit_at(b, j),
{
    let x = a[j / 8];
    let y = b[j / 8];
    let o = (j % 8) as u8;
    assert((x | y) == y);
    assert(((x | y) == y && x & (1u8 << o) != 0) ==> y & (1u8 << o) != 0) by (bit_vector);
}

/// A fixed-length bit array.
#[derive(Clone, Debug)]
pub struct BitLine {
    bits: Vec<u8>,
}

impl View for BitLine {
    type V = Seq<u8>;

    closed spec fn view(&self) -> Seq<u8> {
        self.bits@
    }
}

impl BitLine {
    /// The bit count fits in a `u64`.
    pub open spec fn wf(&self) -> bool {
        self@.len() <= MAX_BYTES
    }

    /// The number of bits.
    pub open spec fn len_spec(&self) -> nat {
        self@.len() * 8
    }

    /// A zeroed array of `size_in_bits` bits, rounded up to whole bytes; refused
    /// where the byte count exceeds what this machine can address or what a
    /// `u64` bit count can hold.
    pub fn new(size_in_bits: u64) -> (r: Result<BitLine, BloomError>)
        ensures
            match r {
                Ok(l) => {
                    &&& bytes_for(size_in_bits) <= MAX_BYTES
                    &&& bytes_for(size_in_bits) <= usize::MAX
                    &&& l.wf()
                    &&& l@ == zeros(bytes_for(size_in_bits))
                },
                Err(e) => {
                    &&& (bytes_for(size_in_bits) > MAX_BYTES || bytes_for(size_in_bits) > usize::MAX)
                    &&& e == BloomError::SizeTooLarge
                },
            },
    {
        let q = size_in_bits / 8;
        let size = if size_in_bits % 8 == 0 {
            q
        } else {
            q + 1
        };
        assert(size == bytes_for(size_in_bits));
        if size > MAX_BYTES || size > usize::MAX as u64 {
            return Err(BloomError::SizeTooLarge);
        }
        let bits: Vec<u8> = vec![0u8; size as usize];
        assert(bits@ =~= zeros(size as nat));
        Ok(BitLine { bits })
    }

    /// Sets bit `index`.
    pub fn set(&mut self, index: u64)
        requires
            index < old(self).len_spec(),
        ensures
            final(self)@ == set_bit(old(self)@, index as int),
    {
        let n = self.bits.len();
        assert(index / 8 < self@.len()) by (nonlinear_arith)
            requires
                index < self@.len() * 8,
        ;
        let idx = (index / 8) as usize;
        let offset = (index % 8) as u8;
        self.bits[idx] = self.bits[idx] | (1u8 << offset);
    }

    /// Whether bit `index` is set.
    pub fn get(&self, index: u64) -> (r: bool)
        requires
            index < self.len_spec(),
        ensures
            r == bit_at(self@, index as int),
    {
        let n = self.bits.len();
        assert(index / 8 < self@.len()) by (nonlinear_arith)
            requires
                index < self@.len() * 8,
        ;
        let idx = (index / 8) as usize;
        let offset = (index % 8) as u8;
        self.bits[idx] & (1u8 << offset) != 0
    }

    /// The number of bits, always a multiple of 8.
    pub fn len(&self) -> (r: u64)
        requires
            self.wf(),
        ensures
            r == self.len_spec(),
    {
        self.bits.len() as u64 * 8
    }

    /// Clears every bit; the length stays.
    pub fn clear(&mut self)
        ensures
            final(self)@ == zeros(old(self)@.len()),
    {
        let n = self.bits.len();
        let mut i: usize = 0;
        while i < n
            invariant
                n == self@.len(),
                n == old(self)@.len(),
                i <= n,
                forall|j: int| 0 <= j < i ==> self@[j] == 0,
            decreases n - i,
        {
            self.bits[i] = 0;
            i = i + 1;
        }
        assert(self@ =~= zeros(n as nat));
    }

    /// The number of set bits.
    pub fn sum(&self) -> (r: u64)
        requires
            self.wf(),
        ensures
            r == count_set(self@, self.len_spec()),
    {
        let n = self.len();
        let mut count: u64 = 0;
        let mut i: u64 = 0;
        while i < n
            invariant
                n == self.len_spec(),
                i <= n,
                count == count_set(self@, i as nat),
                count <= i,
            decreases n - i,
        {
            if self.get(i) {
                count = count + 1;
            }
            i = i + 1;
        }
        count
    }

    /// Whether no bit is set.
    pub fn is_empty(&self) -> (r: bool)
        ensures
            r == all_zero(self@),
    {
        let n = self.bits.len();
        let mut i: usize = 0;
        while i < n
            invariant
                n == self@.len(),
                i <= n,
                forall|j: int| 0 <= j < i ==> self@[j] == 0,
            decreases n - i,
        {
            if self.bits[i] != 0 {
                return false;
            }
            i = i + 1;
        }
        true
    }

    /// Whether every bit set here is set in `other`.
    pub fn is_subset(&self, other: &BitLine) -> (r: bool)
        requires
            self@.len() == other@.len(),
        ensures
            r == subset_bytes(self@, other@),
    {
        let n = self.bits.len();
        let mut i: usize = 0;
        while i < n
            invariant
                n == self@.len(),
                n == other@.len(),
                i <= n,
                forall|j: int| 0 <= j < i ==> #[trigger] (self@[j] | other@[j]) == other@[j],
            decreases n - i,
        {
            if (self.bits[i] | other.bits[i]) != other.bits[i] {
                return false;
            }
            i = i + 1;
        }
        true
    }

    /// Whether every bit set here is set in `other`, and the two differ.
    pub fn is_strict_subset(&self, other: &BitLine) -> (r: bool)
        requires
            self@.len() == other@.len(),
        ensures
            r == (subset_bytes(self@, other@) && self@ != other@),
    {
        let n = self.bits.len();
        let mut is_equal = true;
        let mut i: usize = 0;
        while i < n
            invariant
                n == self@.len(),
                n == other@.len(),
                i <= n,
                forall|j: int| 0 <= j < i ==> #[trigger] (self@[j] | other@[j]) == other@[j],
                is_equal == (forall|j: int| 0 <= j < i ==> self@[j] == other@[j]),
            decreases n - i,
        {
            let lhs = self.bits[i];
            let rhs = other.bits[i];
            if (lhs | rhs) != rhs {
                return false;
            }
            if lhs != rhs {
                is_equal = false;
            }
            i = i + 1;
        }
        if is_equal {
            assert(self@ =~= other@);
        }
        !is_equal
    }

    /// An array that holds `bits` as its bytes.
    pub fn load(bits: Vec<u8>) -> (r: Result<BitLine, BloomError>)
        ensures
            match r {
                Ok(l) => bits@.len() <= MAX_BYTES && l.wf() && l@ == bits@,
                Err(e) => bits@.len() > MAX_BYTES && e == BloomError::SizeTooLarge,
            },
    {
        if bits.len() as u64 > MAX_BYTES {
            return Err(BloomError::SizeTooLarge);
        }
        Ok(BitLine { bits })
    }

    /// An array that holds a copy of `bytes`.
    pub fn load_bytes(bytes: &[u8]) -> (r: Result<BitLine, BloomError>)
        ensures
            match r {
                Ok(l) => bytes@.len() <= MAX_BYTES && l.wf() && l@ == bytes@,
                Err(e) => bytes@.len() > MAX_BYTES && e == BloomError::SizeTooLarge,
            },
    {
        let n = bytes.len();
        let mut bits: Vec<u8> = Vec::new();
        let mut i: usize = 0;
        while i < n
            invariant
                n == bytes@.len(),
                i <= n,
                bits@ == bytes@.take(i as int),
            decreases n - i,
        {
            bits.push(bytes[i]);
            i = i + 1;
            assert(bits@ =~= bytes@.take(i as int));
        }
        assert(bits@ =~= bytes@);
        BitLine::load(bits)
    }

    /// Appends the bytes of the array to `out`.
    pub fn save(&self, out: &mut Vec<u8>)
        ensures
            final(out)@ == old(out)@ + self@,
    {
        let n = self.bits.len();
        let mut i: usize = 0;
        while i < n
            invariant
                n == self@.len(),
                i <= n,
                out@ == old(out)@ + self@.take(i as int),
            decreases n - i,
        {
            out.push(self.bits[i]);
            i = i + 1;
            assert(out@ =~= old(out)@ + self@.take(i as int));
        }
        assert(self@.take(n as int) =~= self@);
    }

    /// The bytes of the array.
    pub fn bits(&self) -> (r: &[u8])
        ensures
            r@ == self@,
    {
        self.bits.as_slice()
    }

    /// A copy of the array.
    pub fn copy(&self) -> (r: BitLine)
        ensures
            r@ == self@,
    {
        let n = self.bits.len();
        let mut bits: Vec<u8> = Vec::new();
        let mut i: usize = 0;
        while i < n
            invariant
                n == self@.len(),
                i <= n,
                bits@ == self@.take(i as int),
            decreases n - i,
        {
            bits.push(self.bits[i]);
            i = i + 1;
            assert(bits@ =~= self@.take(i as int));
        }
        assert(bits@ =~= self@);
        BitLine { bits }
    }

    /// Keeps only the bits that are also set in `rhs`.
    pub fn bitand_assign(&mut self, rhs: &BitLine)
        requires
            old(self)@.len() == rhs@.len(),
        ensures
            final(self)@ == and_bytes(old(self)@, rhs@),
    {
        let n = self.bits.len();
        let mut i: usize = 0;
        while i < n
            invariant
                n == self@.len(),
                n == old(self)@.len(),
                n == rhs@.len(),
                i <= n,
                forall|j: int| 0 <= j < i ==> self@[j] == #[trigger] (old(self)@[j] & rhs@[j]),
                forall|j: int| i <= j < n ==> self@[j] == old(self)@[j],
            decreases n - i,
        {
            self.bits[i] = self.bits[i] & rhs.bits[i];
            i = i + 1;
        }
        assert(self@ =~= and_bytes(old(self)@, rhs@));
    }

    /// Sets every bit that is set in `rhs`.
    pub fn bitor_assign(&mut self, rhs: &BitLine)
        requires
            old(self)@.len() == rhs@.len(),
        ensures
            final(self)@ == or_bytes(old(self)@, rhs@),
    {
        let n = self.bits.len();
        let mut i: usize = 0;
        while i < n
            invariant
                n == self@.len(),
                n == old(self)@.len(),
                n == rhs@.len(),
                i <= n,
                forall|j: int| 0 <= j < i ==> self@[j] == #[trigger] (old(self)@[j] | rhs@[j]),
                forall|j: int| i <= j < n ==> self@[j] == old(self)@[j],
            decreases n - i,
        {
            self.bits[i] = self.bits[i] | rhs.bits[i];
            i = i + 1;
        }
        assert(self@ =~= or_bytes(old(self)@, rhs@));
    }

    /// The bits set in both arrays.
    pub fn bitand(&self, rhs: &BitLine) -> (r: BitLine)
        requires
            self@.len() == rhs@.len(),
        ensures
            r@ == and_bytes(self@, rhs@),
    {
        let mut result = self.copy();
        result.bitand_assign(rhs);
        result
    }

    /// The bits set in either array.
    pub fn bitor(&self, rhs: &BitLine) -> (r: BitLine)
        requires
            self@.len() == rhs@.len(),
        ensures
            r@ == or_bytes(self@, rhs@),
    {
        let mut result = self.copy();
        result.bitor_assign(rhs);
        result
    }
}

impl PartialEq for BitLine {
    fn eq(&self, other: &BitLine) -> (r: bool) {
        let r = self.bits == other.bits;
        proof {
            if r {
                assert(self@ =~= other@);
            }
        }
        r
    }
}

impl vstd::std_specs::cmp::PartialEqSpecImpl for BitLine {
    open spec fn obeys_eq_spec() -> bool {
        true
    }

    open spec fn eq_spec(&self, other: &BitLine) -> bool {
        self@ == other@
    }
}

} // verus!
