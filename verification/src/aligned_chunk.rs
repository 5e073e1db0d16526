//! Bit-packed storage: the fixed-width bit register and the bit vector
//! built from a sequence of registers.
//!
//! `AlignedChunk` is one register, `WORD_BITS` bits wide, the unit in which
//! all bulk operations (XOR, AND, complement) work.  `AlignedChunks` is an
//! ordered sequence of registers sized at construction to cover a given
//! number of qubit bits; it is the physical substrate of one X row, one Z
//! row, or the phase vector of a tableau.

use vstd::prelude::*;

verus! {

use crate::bits::WORD_BITS;
use crate::bits::and_words;
use crate::bits::bit_at;
use crate::bits::lemma_bits_fit_regs;
use crate::bits::lemma_div64_lt;
use crate::bits::lemma_one_hot_bit;
use crate::bits::one_hot_words;
use crate::bits::not_words;
use crate::bits::partial_xor_words;
use crate::bits::regs_per_vec;
use crate::bits::xor_words;
use crate::bits::zero_words;
use crate::error::TableauError;

/// One bit register: a single machine word, `WORD_BITS` bits wide.  Its
/// width is fixed for the lifetime of the program; registers are
/// value-constructed zero-initialized and mutated in place.
#[derive(Clone, Copy, Debug, PartialEq, Eq, Structural)]
pub struct AlignedChunk {
    pub word: u64,
}

impl View for AlignedChunk {
    type V = u64;

    open spec fn view(&self) -> u64 {
        self.word
    }
}

impl AlignedChunk {
    /// A zero-initialized register.
    pub fn new() -> (r: Self)
        ensures
            r@ == 0u64,
    {
        AlignedChunk { word: 0 }
    }

    /// The number of machine words in the register.
    pub fn len(&self) -> (r: usize)
        ensures
            r == 1usize,
    {
        1
    }

    /// The register's bits masked down to bit `idx`: the result keeps the
    /// bit in its position, so it is `1 << idx` when the bit is set and
    /// zero when it is clear.  An index at or beyond the register width is
    /// out of range.
    pub fn get_bit(&self, idx: usize) -> (r: Result<u64, TableauError>)
        ensures
            idx < 64 ==> r == Ok::<u64, TableauError>(self@ & (1u64 << (idx as u64))),
            idx >= 64 ==> r == Err::<u64, TableauError>(TableauError::IndexOutOfRange),
    {
        if idx < WORD_BITS {
            Ok(self.word & (1u64 << (idx as u64)))
        } else {
            Err(TableauError::IndexOutOfRange)
        }
    }

    /// Sets bit `idx` to one, leaving all other bits alone.  An index at
    /// or beyond the register width is out of range and leaves the
    /// register unchanged.
    pub fn set_bit(&mut self, idx: usize) -> (r: Result<(), TableauError>)
        ensures
            idx < 64 ==> r == Ok::<(), TableauError>(())
                && final(self)@ == (old(self)@ | (1u64 << (idx as u64))),
            idx >= 64 ==> r == Err::<(), TableauError>(TableauError::IndexOutOfRange)
                && final(self)@ == old(self)@,
    {
        if idx < WORD_BITS {
            self.word = self.word | (1u64 << (idx as u64));
            Ok(())
        } else {
            Err(TableauError::IndexOutOfRange)
        }
    }

    /// Sets bit `idx` to zero, leaving all other bits alone.  An index at
    /// or beyond the register width is out of range and leaves the
    /// register unchanged.
    pub fn clear_bit(&mut self, idx: usize) -> (r: Result<(), TableauError>)
        ensures
            idx < 64 ==> r == Ok::<(), TableauError>(())
                && final(self)@ == (old(self)@ & !(1u64 << (idx as u64))),
            idx >= 64 ==> r == Err::<(), TableauError>(TableauError::IndexOutOfRange)
                && final(self)@ == old(self)@,
    {
        if idx < WORD_BITS {
            self.word = self.word & !(1u64 << (idx as u64));
            Ok(())
        } else {
            Err(TableauError::IndexOutOfRange)
        }
    }

    /// In-place XOR of this register with `other`.
    pub fn xor(&mut self, other: &AlignedChunk)
        ensures
            final(self)@ == (old(self)@ ^ other@),
    {
        self.word = self.word ^ other.word;
    }

    /// The bitwise AND of this register and `other`, as a new register.
    pub fn and(&self, other: &AlignedChunk) -> (r: Self)
        ensures
            r@ == (self@ & other@),
    {
        AlignedChunk { word: self.word & other.word }
    }

    /// In-place bitwise complement of the register.
    pub fn negate(&mut self)
        ensures
            final(self)@ == !old(self)@,
    {
        self.word = !self.word;
    }
}

/// An ordered sequence of bit registers.  A vector built for `n_qubits`
/// holds `n_qubits / WORD_BITS + 1` registers, so it always covers
/// `n_qubits` bits; bit `i` lives at offset `i % WORD_BITS` of register
/// `i / WORD_BITS`.  Every vector inside one tableau has the same register
/// count, fixed at construction, and is owned exclusively by the row or
/// column it represents.
#[derive(Debug)]
pub struct AlignedChunks {
    pub chunks: Vec<AlignedChunk>,
}

impl View for AlignedChunks {
    type V = Seq<u64>;

    open spec fn view(&self) -> Seq<u64> {
        self.chunks@.map_values(|c: AlignedChunk| c@)
    }
}

impl AlignedChunks {
    /// A vector of `n_qubits / WORD_BITS + 1` registers, all zero.
    pub fn new(n_qubits: usize) -> (r: Self)
        ensures
            r@ == zero_words(regs_per_vec(n_qubits as nat)),
            r@.len() == regs_per_vec(n_qubits as nat),
    {
        let n_regs: usize = n_qubits / WORD_BITS + 1;
        let mut chunks: Vec<AlignedChunk> = Vec::new();
        let mut i: usize = 0;
        while i < n_regs
            invariant
                i <= n_regs,
                chunks@.len() == i,
                forall|j: int| 0 <= j < i ==> chunks@[j]@ == 0u64,
            decreases n_regs - i,
        {
            chunks.push(AlignedChunk::new());
            i = i + 1;
        }
        let r = AlignedChunks { chunks };
        proof {
            assert(r@ =~= zero_words(regs_per_vec(n_qubits as nat)));
        }
        r
    }

    /// A vector sized for `n_qubits` bits whose sole set bit is bit `idx`;
    /// seeds the identity pattern of a tableau's Z block.  An `idx` at or
    /// beyond `n_qubits` is out of range.
    pub fn new_z(n_qubits: usize, idx: usize) -> (r: Result<Self, TableauError>)
        ensures
            idx < n_qubits ==> (r matches Ok(v) && v@ == one_hot_words(
                regs_per_vec(n_qubits as nat),
                idx as int,
            ) && (forall|j: int| 0 <= j < 64 * v@.len() ==> bit_at(v@, j) == (j == idx))),
            idx >= n_qubits ==> (r matches Err(e) && e == TableauError::IndexOutOfRange),
    {
        if idx < n_qubits {
            Ok(Self::identity_row(n_qubits, idx))
        } else {
            Err(TableauError::IndexOutOfRange)
        }
    }

    /// A vector sized for `n_qubits` bits with exactly bit `idx` set.
    pub(crate) fn identity_row(n_qubits: usize, idx: usize) -> (r: Self)
        requires
            idx < n_qubits,
        ensures
            r@ == one_hot_words(regs_per_vec(n_qubits as nat), idx as int),
            r@.len() == regs_per_vec(n_qubits as nat),
            forall|j: int| 0 <= j < 64 * r@.len() ==> bit_at(r@, j) == (j == idx),
    {
        let mut v = Self::new(n_qubits);
        proof {
            lemma_bits_fit_regs(n_qubits as int);
        }
        v.set_word_bit(idx);
        proof {
            let regs = regs_per_vec(n_qubits as nat);
            let m = 1u64 << ((idx % 64) as u64);
            lemma_div64_lt(idx as int, regs as int);
            assert(0u64 | m == m) by (bit_vector);
            assert(v@ =~= one_hot_words(regs, idx as int));
            assert forall|j: int| 0 <= j < 64 * v@.len() implies bit_at(v@, j) == (j == idx) by {
                lemma_one_hot_bit(regs, idx as int, j);
            }
        }
        v
    }

    /// The number of registers in the vector.
    pub fn len(&self) -> (r: usize)
        ensures
            r == self@.len(),
    {
        self.chunks.len()
    }

    /// Bit `idx` of the vector, addressed globally across its registers.
    /// An index at or beyond the vector's bit capacity is out of range.
    pub fn get_bit(&self, idx: usize) -> (r: Result<bool, TableauError>)
        ensures
            idx < 64 * self@.len() ==> r == Ok::<bool, TableauError>(bit_at(self@, idx as int)),
            idx >= 64 * self@.len() ==> r == Err::<bool, TableauError>(
                TableauError::IndexOutOfRange,
            ),
    {
        proof {
            lemma_div64_lt(idx as int, self@.len() as int);
        }
        let w_idx: usize = idx / WORD_BITS;
        if w_idx < self.chunks.len() {
            let w: u64 = self.chunks[w_idx].word;
            Ok(((w >> ((idx % WORD_BITS) as u64)) & 1) == 1)
        } else {
            Err(TableauError::IndexOutOfRange)
        }
    }

    /// Sets bit `idx` of the vector to one, leaving every other bit alone.
    /// An index at or beyond the vector's bit capacity is out of range and
    /// leaves the vector unchanged.
    pub fn set_bit(&mut self, idx: usize) -> (r: Result<(), TableauError>)
        ensures
            final(self)@.len() == old(self)@.len(),
            idx < 64 * old(self)@.len() ==> r == Ok::<(), TableauError>(())
                && final(self)@ == old(self)@.update(
                (idx as int) / 64,
                (old(self)@[(idx as int) / 64] | (1u64 << ((idx % 64) as u64))),
            ),
            idx >= 64 * old(self)@.len() ==> r == Err::<(), TableauError>(
                TableauError::IndexOutOfRange,
            ) && final(self)@ == old(self)@,
    {
        proof {
            lemma_div64_lt(idx as int, old(self)@.len() as int);
        }
        if idx / WORD_BITS < self.chunks.len() {
            self.set_word_bit(idx);
            Ok(())
        } else {
            Err(TableauError::IndexOutOfRange)
        }
    }

    /// Sets bit `idx`, which the caller has shown to be in range.
    pub(crate) fn set_word_bit(&mut self, idx: usize)
        requires
            idx < 64 * old(self)@.len(),
        ensures
            final(self)@.len() == old(self)@.len(),
            final(self)@ == old(self)@.update(
                (idx as int) / 64,
                (old(self)@[(idx as int) / 64] | (1u64 << ((idx % 64) as u64))),
            ),
    {
        proof {
            lemma_div64_lt(idx as int, old(self)@.len() as int);
        }
        let w_idx: usize = idx / WORD_BITS;
        let c: AlignedChunk = self.chunks[w_idx];
        let updated = AlignedChunk { word: c.word | (1u64 << ((idx % WORD_BITS) as u64)) };
        self.chunks.set(w_idx, updated);
        proof {
            assert(self@ =~= old(self)@.update(
                (idx as int) / 64,
                (old(self)@[(idx as int) / 64] | (1u64 << ((idx % 64) as u64))),
            ));
        }
    }

    /// In-place XOR of this vector with `other`, register by register.
    /// The two vectors must have the same register count: that is a
    /// structural property enforced by construction, not a runtime check.
    pub fn xor(&mut self, other: &AlignedChunks)
        requires
            old(self)@.len() == other@.len(),
        ensures
            final(self)@ == xor_words(old(self)@, other@),
    {
        let ghost orig: Seq<AlignedChunk> = self.chunks@;
        let n: usize = self.chunks.len();
        let mut i: usize = 0;
        while i < n
            invariant
                i <= n,
                n == self.chunks@.len(),
                self.chunks@.len() == orig.len(),
                other.chunks@.len() == orig.len(),
                forall|j: int| 0 <= j < i ==> self.chunks@[j]@ == (orig[j]@ ^ other.chunks@[j]@),
                forall|j: int| i <= j < n ==> self.chunks@[j] == orig[j],
            decreases n - i,
        {
            let mut c: AlignedChunk = self.chunks[i];
            c.xor(&other.chunks[i]);
            self.chunks.set(i, c);
            i = i + 1;
        }
        proof {
            assert(self@ =~= xor_words(old(self)@, other@));
        }
    }

    /// In-place XOR restricted to the registers at index `idx` and above;
    /// the registers before `idx` are left untouched.  Callers use it when
    /// the skipped prefix of `other` is known to contribute nothing; an
    /// `idx` at or beyond the register count is a no-op, not an error.
    pub fn partial_xor(&mut self, other: &AlignedChunks, idx: usize)
        requires
            old(self)@.len() == other@.len(),
        ensures
            final(self)@ == partial_xor_words(old(self)@, other@, idx as int),
    {
        let ghost orig: Seq<AlignedChunk> = self.chunks@;
        let n: usize = self.chunks.len();
        let mut i: usize = idx;
        while i < n
            invariant
                idx <= i,
                n == self.chunks@.len(),
                self.chunks@.len() == orig.len(),
                other.chunks@.len() == orig.len(),
                forall|j: int|
                    0 <= j < n && idx <= j < i ==> self.chunks@[j]@ == (orig[j]@
                        ^ other.chunks@[j]@),
                forall|j: int| 0 <= j < n && (j < idx || i <= j) ==> self.chunks@[j] == orig[j],
            decreases n - i,
        {
            let mut c: AlignedChunk = self.chunks[i];
            c.xor(&other.chunks[i]);
            self.chunks.set(i, c);
            i = i + 1;
        }
        proof {
            assert(self@ =~= partial_xor_words(old(self)@, other@, idx as int));
        }
    }

    /// A register-for-register copy of this vector.
    pub fn duplicate(&self) -> (r: Self)
        ensures
            r@ == self@,
    {
        let n: usize = self.chunks.len();
        let mut chunks: Vec<AlignedChunk> = Vec::new();
        let mut i: usize = 0;
        while i < n
            invariant
                i <= n,
                n == self.chunks@.len(),
                chunks@.len() == i,
                forall|j: int| 0 <= j < i ==> chunks@[j] == self.chunks@[j],
            decreases n - i,
        {
            chunks.push(self.chunks[i]);
            i = i + 1;
        }
        let r = AlignedChunks { chunks };
        proof {
            assert(r@ =~= self@);
        }
        r
    }

    /// The register-wise AND of this vector and `other`, as a new vector.
    /// Both operands must have the same register count.
    pub fn and(&self, other: &AlignedChunks) -> (r: Self)
        requires
            self@.len() == other@.len(),
        ensures
            r@ == and_words(self@, other@),
    {
        let n: usize = self.chunks.len();
        let mut chunks: Vec<AlignedChunk> = Vec::new();
        let mut i: usize = 0;
        while i < n
            invariant
                i <= n,
                n == self@.len(),
                other@.len() == self@.len(),
                chunks@.len() == i,
                forall|j: int| 0 <= j < i ==> chunks@[j]@ == (self@[j] & other@[j]),
            decreases n - i,
        {
            chunks.push(self.chunks[i].and(&other.chunks[i]));
            i = i + 1;
        }
        let r = AlignedChunks { chunks };
        proof {
            assert(r@ =~= and_words(self@, other@));
        }
        r
    }

    /// In-place bitwise complement of every register in the vector.
    pub fn inv(&mut self)
        ensures
            final(self)@ == not_words(old(self)@),
    {
        let ghost orig: Seq<AlignedChunk> = self.chunks@;
        let n: usize = self.chunks.len();
        let mut i: usize = 0;
        while i < n
            invariant
                i <= n,
                n == self.chunks@.len(),
                self.chunks@.len() == orig.len(),
                forall|j: int| 0 <= j < i ==> self.chunks@[j]@ == !orig[j]@,
                forall|j: int| i <= j < n ==> self.chunks@[j] == orig[j],
            decreases n - i,
        {
            let mut c: AlignedChunk = self.chunks[i];
            c.negate();
            self.chunks.set(i, c);
            i = i + 1;
        }
        proof {
            assert(self@ =~= not_words(old(self)@));
        }
    }
}

} // verus!
