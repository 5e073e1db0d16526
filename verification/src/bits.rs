//! Bit-level model of the packed storage.
//!
//! A bit register is modelled as a `u64` word and a bit vector as a
//! `Seq<u64>` of words, 64 bits per word, least significant bit first.  The
//! spec functions here say what each storage operation does to that model,
//! and the lemmas state the algebraic laws the operations obey.

use vstd::prelude::*;

verus! {

use vstd::seq_lib::assert_seqs_equal;

/// Bit width of one register word.
pub const WORD_BITS: usize = 64;

/// Bit `i` of the word `w` (least significant bit is bit 0).
pub open spec fn word_bit(w: u64, i: int) -> bool {
    (w >> (i as u64)) & 1 == 1
}

/// Bit `i` of a vector of words, 64 bits per word.
pub open spec fn bit_at(words: Seq<u64>, i: int) -> bool {
    word_bit(words[i / 64], i % 64)
}

/// Pointwise XOR of two word vectors of equal length.
pub open spec fn xor_words(a: Seq<u64>, b: Seq<u64>) -> Seq<u64> {
    Seq::new(a.len(), |i: int| a[i] ^ b[i])
}

/// Pointwise AND of two word vectors of equal length.
pub open spec fn and_words(a: Seq<u64>, b: Seq<u64>) -> Seq<u64> {
    Seq::new(a.len(), |i: int| a[i] & b[i])
}

/// Pointwise complement of a word vector.
pub open spec fn not_words(a: Seq<u64>) -> Seq<u64> {
    Seq::new(a.len(), |i: int| !a[i])
}

/// XOR restricted to the words at index `start` and above; the words
/// before `start` keep their value.
pub open spec fn partial_xor_words(a: Seq<u64>, b: Seq<u64>, start: int) -> Seq<u64> {
    Seq::new(a.len(), |i: int| if i < start { a[i] } else { a[i] ^ b[i] })
}

/// A vector of `len` zero words.
pub open spec fn zero_words(len: nat) -> Seq<u64> {
    Seq::new(len, |i: int| 0u64)
}

/// A vector of `len` words whose sole set bit is bit `idx`.
pub open spec fn one_hot_words(len: nat, idx: int) -> Seq<u64> {
    Seq::new(len, |i: int| if i == idx / 64 { 1u64 << ((idx % 64) as u64) } else { 0u64 })
}

/// Number of registers a bit vector for `n_qubits` bits holds: one per
/// full word plus one more, so the count never falls to zero and a
/// trailing partial word always has room.
pub open spec fn regs_per_vec(n_qubits: nat) -> nat {
    n_qubits / 64 + 1
}

/// The zero word has no set bit.
pub proof fn lemma_word_bit_zero(i: int)
    requires
        0 <= i,
    ensures
        !word_bit(0u64, i),
{
    let iu = i as u64;
    assert((0u64 >> iu) & 1 != 1) by (bit_vector);
}

/// A word with the single bit `k` set has bit `i` exactly when `i == k`.
pub proof fn lemma_word_bit_single(k: int, i: int)
    requires
        0 <= k < 64,
        0 <= i < 64,
    ensures
        word_bit(1u64 << (k as u64), i) == (i == k),
{
    let ku = k as u64;
    let iu = i as u64;
    assert((((1u64 << ku) >> iu) & 1 == 1) == (iu == ku)) by (bit_vector)
        requires
            ku < 64,
            iu < 64,
    ;
}

/// Setting bit `k` by OR leaves every other bit alone and makes bit `k` true.
pub proof fn lemma_word_bit_or_single(w: u64, k: int, i: int)
    requires
        0 <= k < 64,
        0 <= i < 64,
    ensures
        word_bit(w | (1u64 << (k as u64)), i) == (i == k || word_bit(w, i)),
{
    let ku = k as u64;
    let iu = i as u64;
    assert((((w | (1u64 << ku)) >> iu) & 1 == 1) == (iu == ku || ((w >> iu) & 1 == 1)))
        by (bit_vector)
        requires
            ku < 64,
            iu < 64,
    ;
}

/// A global bit index is below `64 * len` exactly when its word index is
/// below `len`.
pub proof fn lemma_div64_lt(i: int, len: int)
    requires
        0 <= i,
        0 <= len,
    ensures
        (i / 64 < len) <==> (i < 64 * len),
{
    vstd::arithmetic::div_mod::lemma_fundamental_div_mod(i, 64);
}

/// `n` bits always fit in `n / 64 + 1` words.
pub proof fn lemma_bits_fit_regs(n: int)
    requires
        0 <= n,
    ensures
        n < 64 * (n / 64 + 1),
{
    vstd::arithmetic::div_mod::lemma_fundamental_div_mod(n, 64);
}

/// Two nonnegative bit indices are equal exactly when their word indices
/// and their offsets within the word agree.
pub proof fn lemma_split64_eq(i: int, j: int)
    requires
        0 <= i,
        0 <= j,
    ensures
        (i == j) <==> (i / 64 == j / 64 && i % 64 == j % 64),
{
    vstd::arithmetic::div_mod::lemma_fundamental_div_mod(i, 64);
    vstd::arithmetic::div_mod::lemma_fundamental_div_mod(j, 64);
}

/// The zero word vector has no set bit.
pub proof fn lemma_zero_words_bit(len: nat, j: int)
    requires
        0 <= j < 64 * len,
    ensures
        !bit_at(zero_words(len), j),
{
    lemma_div64_lt(j, len as int);
    lemma_word_bit_zero(j % 64);
}

/// The one-hot word vector for bit `idx` has bit `j` set exactly when
/// `j == idx`.
pub proof fn lemma_one_hot_bit(len: nat, idx: int, j: int)
    requires
        0 <= idx < 64 * len,
        0 <= j < 64 * len,
    ensures
        bit_at(one_hot_words(len, idx), j) == (j == idx),
{
    lemma_div64_lt(idx, len as int);
    lemma_div64_lt(j, len as int);
    lemma_split64_eq(j, idx);
    if j / 64 == idx / 64 {
        lemma_word_bit_single(idx % 64, j % 64);
    } else {
        lemma_word_bit_zero(j % 64);
    }
}

/// Setting bit `idx` of a word vector leaves every other bit alone and
/// makes bit `idx` true.
pub proof fn lemma_bit_at_set(v: Seq<u64>, idx: int, j: int)
    requires
        0 <= idx < 64 * v.len(),
        0 <= j < 64 * v.len(),
    ensures
        bit_at(v.update(idx / 64, (v[idx / 64] | (1u64 << ((idx % 64) as u64)))), j) == (j == idx
            || bit_at(v, j)),
{
    lemma_div64_lt(idx, v.len() as int);
    lemma_div64_lt(j, v.len() as int);
    lemma_split64_eq(j, idx);
    if j / 64 == idx / 64 {
        lemma_word_bit_or_single(v[idx / 64], idx % 64, j % 64);
    }
}

/// XOR is its own inverse on each bit of a word.
pub proof fn lemma_word_xor_involution(a: u64, b: u64)
    ensures
        (a ^ b) ^ b == a,
{
    assert((a ^ b) ^ b == a) by (bit_vector);
}

/// Complement is its own inverse on a word.
pub proof fn lemma_word_not_involution(a: u64)
    ensures
        !(!a) == a,
{
    assert(!(!a) == a) by (bit_vector);
}

/// XOR with a word vector is its own inverse: applying `xor_words` with
/// the same operand twice restores the original vector.
pub proof fn lemma_xor_words_involution(a: Seq<u64>, b: Seq<u64>)
    requires
        a.len() == b.len(),
    ensures
        xor_words(xor_words(a, b), b) == a,
{
    assert forall|i: int| 0 <= i < a.len() implies xor_words(xor_words(a, b), b)[i] == a[i] by {
        lemma_word_xor_involution(a[i], b[i]);
    }
    assert_seqs_equal!(xor_words(xor_words(a, b), b) == a);
}

/// Complementing a word vector twice restores the original vector.
pub proof fn lemma_not_words_involution(a: Seq<u64>)
    ensures
        not_words(not_words(a)) == a,
{
    assert forall|i: int| 0 <= i < a.len() implies not_words(not_words(a))[i] == a[i] by {
        lemma_word_not_involution(a[i]);
    }
    assert_seqs_equal!(not_words(not_words(a)) == a);
}

/// Where the operand's leading words are zero, starting the XOR at `start`
/// changes nothing: the partial XOR equals the full XOR.
pub proof fn lemma_partial_xor_equals_xor(a: Seq<u64>, b: Seq<u64>, start: int)
    requires
        a.len() == b.len(),
        forall|i: int| 0 <= i < start && i < b.len() ==> b[i] == 0u64,
    ensures
        partial_xor_words(a, b, start) == xor_words(a, b),
{
    assert forall|i: int| 0 <= i < a.len() implies partial_xor_words(a, b, start)[i] == xor_words(
        a,
        b,
    )[i] by {
        if i < start {
            let w = a[i];
            assert(w ^ 0u64 == w) by (bit_vector);
        }
    }
    assert_seqs_equal!(partial_xor_words(a, b, start) == xor_words(a, b));
}

} // verus!
