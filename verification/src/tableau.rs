//! The symplectic tableau and its Clifford gate updates.
//!
//! A tableau for `n_qubits` qubits tracks one stabilizer generator per
//! qubit.  Each generator is encoded by an X bit row, a Z bit row and a
//! phase bit; every Clifford gate acts as an XOR/swap rule over those
//! bits.  The X and Z blocks are stored as one bit vector per generator
//! when the layout is row-major, or as one bit vector per qubit when it is
//! column-major.  Construction yields the computational-basis ground
//! state: the X block all zero, the Z block the identity pattern, the
//! phase vector zero, in column-major order (two-qubit gates being the
//! common case).
//!
//! Gate application is atomic: a precondition failure (wrong layout, a
//! qubit doubling as control and target, an out-of-range index) is
//! reported as an error and leaves the storage untouched.

use vstd::prelude::*;

verus! {

use crate::aligned_chunk::AlignedChunks;
use crate::bits::and_words;
use crate::bits::bit_at;
use crate::bits::lemma_bit_at_set;
use crate::bits::lemma_bits_fit_regs;
use crate::bits::lemma_one_hot_bit;
use crate::bits::lemma_xor_words_involution;
use crate::bits::lemma_zero_words_bit;
use crate::bits::not_words;
use crate::bits::one_hot_words;
use crate::bits::regs_per_vec;
use crate::bits::xor_words;
use crate::bits::zero_words;
use crate::error::TableauError;

/// Which block of the tableau a read addresses.
#[derive(Clone, Copy, Debug, PartialEq, Eq, Structural)]
pub enum Block {
    X,
    Z,
    Phase,
}

/// The mathematical state of a tableau: the X and Z blocks as sequences
/// of word vectors, the phase vector, the qubit count and the layout
/// flag.  When `col_major` is set, `x[j]` and `z[j]` hold the bits of
/// qubit `j` across all generators; otherwise `x[i]` and `z[i]` hold the
/// bits of generator `i` across all qubits.  The phase vector is indexed
/// by generator in either layout.
#[verifier::ext_equal]
pub struct TableauView {
    pub x: Seq<Seq<u64>>,
    pub z: Seq<Seq<u64>>,
    pub phase: Seq<u64>,
    pub n: nat,
    pub col_major: bool,
}

impl TableauView {
    /// Shape of a well-formed tableau: one X vector and one Z vector per
    /// qubit, every vector with the register count that `n` dictates.
    pub open spec fn wf(self) -> bool {
        &&& self.x.len() == self.n
        &&& self.z.len() == self.n
        &&& (forall|i: int| 0 <= i < self.n ==> (#[trigger] self.x[i]).len() == regs_per_vec(
            self.n,
        ))
        &&& (forall|i: int| 0 <= i < self.n ==> (#[trigger] self.z[i]).len() == regs_per_vec(
            self.n,
        ))
        &&& self.phase.len() == regs_per_vec(self.n)
    }

    /// The X bit of generator `gen` at qubit `qubit`, read through the
    /// current layout.
    pub open spec fn x_bit(self, gen: int, qubit: int) -> bool {
        if self.col_major {
            bit_at(self.x[qubit], gen)
        } else {
            bit_at(self.x[gen], qubit)
        }
    }

    /// The Z bit of generator `gen` at qubit `qubit`, read through the
    /// current layout.
    pub open spec fn z_bit(self, gen: int, qubit: int) -> bool {
        if self.col_major {
            bit_at(self.z[qubit], gen)
        } else {
            bit_at(self.z[gen], qubit)
        }
    }

    /// The phase bit of generator `gen`.
    pub open spec fn phase_bit(self, gen: int) -> bool {
        bit_at(self.phase, gen)
    }
}

/// The error a two-qubit column gate reports, if any: the operands must
/// differ, the layout must be column-major, and both qubit indices must be
/// in range — in that order of precedence.
pub open spec fn two_qubit_check(v: TableauView, ctrl: int, targ: int) -> Result<
    (),
    TableauError,
> {
    if ctrl == targ {
        Err(TableauError::InvalidOperands)
    } else if !v.col_major {
        Err(TableauError::InvalidLayout)
    } else if ctrl >= v.n || targ >= v.n {
        Err(TableauError::IndexOutOfRange)
    } else {
        Ok(())
    }
}

/// The error a single-qubit column gate reports, if any: the layout must
/// be column-major and the qubit index in range.
pub open spec fn column_gate_check(v: TableauView, targ: int) -> Result<(), TableauError> {
    if !v.col_major {
        Err(TableauError::InvalidLayout)
    } else if targ >= v.n {
        Err(TableauError::IndexOutOfRange)
    } else {
        Ok(())
    }
}

/// The symplectic update of CNOT(ctrl, targ) on a column-major view:
/// `X[targ] ^= X[ctrl]` and `Z[ctrl] ^= Z[targ]`; the phase vector is
/// unaffected.
pub open spec fn cnot_step(v: TableauView, ctrl: int, targ: int) -> TableauView {
    TableauView {
        x: v.x.update(targ, xor_words(v.x[targ], v.x[ctrl])),
        z: v.z.update(ctrl, xor_words(v.z[ctrl], v.z[targ])),
        phase: v.phase,
        n: v.n,
        col_major: v.col_major,
    }
}

/// The symplectic update of Hadamard(targ) on a column-major view: the
/// X and Z columns of `targ` swap; the phase vector is unaffected in this
/// convention.
pub open spec fn hadamard_step(v: TableauView, targ: int) -> TableauView {
    TableauView {
        x: v.x.update(targ, v.z[targ]),
        z: v.z.update(targ, v.x[targ]),
        phase: v.phase,
        n: v.n,
        col_major: v.col_major,
    }
}

/// The symplectic update of the Phase gate S(targ) on a column-major
/// view: `phase ^= X[targ] & Z[targ]` computed from the pre-update Z,
/// then `Z[targ] ^= X[targ]`.
pub open spec fn phase_step(v: TableauView, targ: int) -> TableauView {
    TableauView {
        x: v.x,
        z: v.z.update(targ, xor_words(v.z[targ], v.x[targ])),
        phase: xor_words(v.phase, and_words(v.x[targ], v.z[targ])),
        n: v.n,
        col_major: v.col_major,
    }
}

/// The symplectic update of the Phase-dagger gate S-dagger(targ) on a
/// column-major view, mirroring S: `Z[targ] ^= X[targ]` first, then
/// `phase ^= X[targ] & Z[targ]` computed from the post-update Z.
pub open spec fn phase_dag_step(v: TableauView, targ: int) -> TableauView {
    let z_new = xor_words(v.z[targ], v.x[targ]);
    TableauView {
        x: v.x,
        z: v.z.update(targ, z_new),
        phase: xor_words(v.phase, and_words(v.x[targ], z_new)),
        n: v.n,
        col_major: v.col_major,
    }
}

/// A symplectic tableau over bit-packed storage: one bit vector per
/// generator (row-major) or per qubit (column-major) in each of the X and
/// Z blocks, and a single phase vector indexed by generator.
#[derive(Debug)]
pub struct Tableau {
    pub x_component: Vec<AlignedChunks>,
    pub z_component: Vec<AlignedChunks>,
    pub phase_component: AlignedChunks,
    pub n_qubits: usize,
    pub col_major: bool,
}

impl View for Tableau {
    type V = TableauView;

    open spec fn view(&self) -> TableauView {
        TableauView {
            x: self.x_component@.map_values(|v: AlignedChunks| v@),
            z: self.z_component@.map_values(|v: AlignedChunks| v@),
            phase: self.phase_component@,
            n: self.n_qubits as nat,
            col_major: self.col_major,
        }
    }
}

impl Tableau {
    /// The storage has the shape its qubit count dictates.
    pub open spec fn wf(self) -> bool {
        self@.wf()
    }

    /// A tableau for `n_qubits` qubits encoding the all-zero
    /// computational-basis state: the X block identically zero, the Z
    /// block the identity pattern (generator `i` has its sole set bit at
    /// qubit `i`), the phase vector zero, in column-major order.
    pub fn new(n_qubits: usize) -> (t: Tableau)
        ensures
            t.wf(),
            t@.n == n_qubits,
            t@.col_major,
            t@.phase == zero_words(regs_per_vec(n_qubits as nat)),
            forall|i: int|
                0 <= i < n_qubits ==> (#[trigger] t@.x[i]) == zero_words(
                    regs_per_vec(n_qubits as nat),
                ),
            forall|i: int|
                0 <= i < n_qubits ==> (#[trigger] t@.z[i]) == one_hot_words(
                    regs_per_vec(n_qubits as nat),
                    i,
                ),
            forall|g: int, q: int|
                0 <= g < n_qubits && 0 <= q < n_qubits ==> !(#[trigger] t@.x_bit(g, q)),
            forall|g: int, q: int|
                0 <= g < n_qubits && 0 <= q < n_qubits ==> (#[trigger] t@.z_bit(g, q)) == (g == q),
            forall|g: int| 0 <= g < n_qubits ==> !(#[trigger] t@.phase_bit(g)),
    {
        let mut x_component: Vec<AlignedChunks> = Vec::new();
        let mut z_component: Vec<AlignedChunks> = Vec::new();
        let mut i: usize = 0;
        while i < n_qubits
            invariant
                i <= n_qubits,
                x_component@.len() == i,
                z_component@.len() == i,
                forall|j: int|
                    0 <= j < i ==> (#[trigger] x_component@[j]@) == zero_words(
                        regs_per_vec(n_qubits as nat),
                    ),
                forall|j: int|
                    0 <= j < i ==> (#[trigger] z_component@[j]@) == one_hot_words(
                        regs_per_vec(n_qubits as nat),
                        j,
                    ),
            decreases n_qubits - i,
        {
            x_component.push(AlignedChunks::new(n_qubits));
            z_component.push(AlignedChunks::identity_row(n_qubits, i));
            i = i + 1;
        }
        let t = Tableau {
            x_component,
            z_component,
            phase_component: AlignedChunks::new(n_qubits),
            n_qubits,
            col_major: true,
        };
        proof {
            let regs = regs_per_vec(n_qubits as nat);
            lemma_bits_fit_regs(n_qubits as int);
            assert forall|g: int, q: int|
                0 <= g < n_qubits && 0 <= q < n_qubits implies !(#[trigger] t@.x_bit(g, q)) by {
                assert(t@.x[q] == zero_words(regs));
                lemma_zero_words_bit(regs, g);
            }
            assert forall|g: int, q: int|
                0 <= g < n_qubits && 0 <= q < n_qubits implies (#[trigger] t@.z_bit(g, q)) == (g
                == q) by {
                assert(t@.z[q] == one_hot_words(regs, q));
                lemma_one_hot_bit(regs, q, g);
            }
            assert forall|g: int| 0 <= g < n_qubits implies !(#[trigger] t@.phase_bit(g)) by {
                lemma_zero_words_bit(regs, g);
            }
        }
        t
    }

    /// The number of qubits (and of stabilizer generators) the tableau
    /// tracks.
    pub fn len(&self) -> (r: usize)
        ensures
            r == self@.n,
    {
        self.n_qubits
    }

    /// Applies CNOT with control `ctrl` and target `targ`:
    /// `X[targ] ^= X[ctrl]` and `Z[ctrl] ^= Z[targ]`; the phase vector is
    /// unaffected.  The qubits must differ, the layout must be
    /// column-major and both indices must be in range; a violation is
    /// reported as the matching error and leaves the tableau unchanged.
    pub fn cnot(&mut self, ctrl: usize, targ: usize) -> (r: Result<(), TableauError>)
        requires
            old(self).wf(),
        ensures
            final(self).wf(),
            r == two_qubit_check(old(self)@, ctrl as int, targ as int),
            r is Err ==> *final(self) == *old(self),
            r is Ok ==> final(self)@ == cnot_step(old(self)@, ctrl as int, targ as int),
    {
        if ctrl == targ {
            return Err(TableauError::InvalidOperands);
        }
        if !self.col_major {
            return Err(TableauError::InvalidLayout);
        }
        if ctrl >= self.n_qubits || targ >= self.n_qubits {
            return Err(TableauError::IndexOutOfRange);
        }
        let ghost v0 = old(self)@;
        proof {
            assert(v0.x[targ as int] == self.x_component@[targ as int]@);
            assert(v0.x[ctrl as int] == self.x_component@[ctrl as int]@);
            assert(v0.z[targ as int] == self.z_component@[targ as int]@);
            assert(v0.z[ctrl as int] == self.z_component@[ctrl as int]@);
            assert(v0.x[targ as int].len() == regs_per_vec(v0.n));
            assert(v0.x[ctrl as int].len() == regs_per_vec(v0.n));
            assert(v0.z[targ as int].len() == regs_per_vec(v0.n));
            assert(v0.z[ctrl as int].len() == regs_per_vec(v0.n));
        }
        let mut xt = self.x_component[targ].duplicate();
        xt.xor(&self.x_component[ctrl]);
        self.x_component.set(targ, xt);
        let mut zc = self.z_component[ctrl].duplicate();
        zc.xor(&self.z_component[targ]);
        self.z_component.set(ctrl, zc);
        proof {
            let vn = cnot_step(v0, ctrl as int, targ as int);
            assert(self@.x =~= vn.x);
            assert(self@.z =~= vn.z);
            assert(self@ =~= vn);
            assert forall|i: int|
                0 <= i < vn.n implies (#[trigger] vn.x[i]).len() == regs_per_vec(vn.n) by {
                assert(v0.x[i].len() == regs_per_vec(v0.n));
            }
            assert forall|i: int|
                0 <= i < vn.n implies (#[trigger] vn.z[i]).len() == regs_per_vec(vn.n) by {
                assert(v0.z[i].len() == regs_per_vec(v0.n));
            }
            assert(vn.wf());
        }
        Ok(())
    }

    /// Applies Hadamard to qubit `targ` by swapping its X and Z columns;
    /// the phase vector is unaffected in this convention.  The layout
    /// must be column-major and the index in range; a violation is
    /// reported as the matching error and leaves the tableau unchanged.
    pub fn hadamard_col(&mut self, targ: usize) -> (r: Result<(), TableauError>)
        requires
            old(self).wf(),
        ensures
            final(self).wf(),
            r == column_gate_check(old(self)@, targ as int),
            r is Err ==> *final(self) == *old(self),
            r is Ok ==> final(self)@ == hadamard_step(old(self)@, targ as int),
    {
        if !self.col_major {
            return Err(TableauError::InvalidLayout);
        }
        if targ >= self.n_qubits {
            return Err(TableauError::IndexOutOfRange);
        }
        let ghost v0 = old(self)@;
        proof {
            assert(v0.x[targ as int] == self.x_component@[targ as int]@);
            assert(v0.z[targ as int] == self.z_component@[targ as int]@);
            assert(v0.x[targ as int].len() == regs_per_vec(v0.n));
            assert(v0.z[targ as int].len() == regs_per_vec(v0.n));
        }
        let xt = self.x_component[targ].duplicate();
        let zt = self.z_component[targ].duplicate();
        self.x_component.set(targ, zt);
        self.z_component.set(targ, xt);
        proof {
            let vn = hadamard_step(v0, targ as int);
            assert(self@.x =~= vn.x);
            assert(self@.z =~= vn.z);
            assert(self@ =~= vn);
            assert forall|i: int|
                0 <= i < vn.n implies (#[trigger] vn.x[i]).len() == regs_per_vec(vn.n) by {
                assert(v0.x[i].len() == regs_per_vec(v0.n));
                assert(v0.z[i].len() == regs_per_vec(v0.n));
            }
            assert forall|i: int|
                0 <= i < vn.n implies (#[trigger] vn.z[i]).len() == regs_per_vec(vn.n) by {
                assert(v0.x[i].len() == regs_per_vec(v0.n));
                assert(v0.z[i].len() == regs_per_vec(v0.n));
            }
            assert(vn.wf());
        }
        Ok(())
    }

    /// Applies the Phase gate S to qubit `targ`:
    /// `phase ^= X[targ] & Z[targ]` computed from the pre-update Z, then
    /// `Z[targ] ^= X[targ]`.  The layout must be column-major and the
    /// index in range; a violation is reported as the matching error and
    /// leaves the tableau unchanged.
    pub fn phase(&mut self, targ: usize) -> (r: Result<(), TableauError>)
        requires
            old(self).wf(),
        ensures
            final(self).wf(),
            r == column_gate_check(old(self)@, targ as int),
            r is Err ==> *final(self) == *old(self),
            r is Ok ==> final(self)@ == phase_step(old(self)@, targ as int),
    {
        if !self.col_major {
            return Err(TableauError::InvalidLayout);
        }
        if targ >= self.n_qubits {
            return Err(TableauError::IndexOutOfRange);
        }
        let ghost v0 = old(self)@;
        proof {
            assert(v0.x[targ as int] == self.x_component@[targ as int]@);
            assert(v0.z[targ as int] == self.z_component@[targ as int]@);
            assert(v0.x[targ as int].len() == regs_per_vec(v0.n));
            assert(v0.z[targ as int].len() == regs_per_vec(v0.n));
        }
        let pcol = self.x_component[targ].and(&self.z_component[targ]);
        self.phase_component.xor(&pcol);
        let mut zt = self.z_component[targ].duplicate();
        zt.xor(&self.x_component[targ]);
        self.z_component.set(targ, zt);
        proof {
            let vn = phase_step(v0, targ as int);
            assert(self@.x =~= vn.x);
            assert(self@.z =~= vn.z);
            assert(self@ =~= vn);
            assert forall|i: int|
                0 <= i < vn.n implies (#[trigger] vn.z[i]).len() == regs_per_vec(vn.n) by {
                assert(v0.z[i].len() == regs_per_vec(v0.n));
            }
            assert(vn.wf());
        }
        Ok(())
    }

    /// Applies the Phase-dagger gate S-dagger to qubit `targ`, mirroring
    /// S: `Z[targ] ^= X[targ]` first, then `phase ^= X[targ] & Z[targ]`
    /// computed from the post-update Z.  The layout must be column-major
    /// and the index in range; a violation is reported as the matching
    /// error and leaves the tableau unchanged.
    pub fn phase_dag(&mut self, targ: usize) -> (r: Result<(), TableauError>)
        requires
            old(self).wf(),
        ensures
            final(self).wf(),
            r == column_gate_check(old(self)@, targ as int),
            r is Err ==> *final(self) == *old(self),
            r is Ok ==> final(self)@ == phase_dag_step(old(self)@, targ as int),
    {
        if !self.col_major {
            return Err(TableauError::InvalidLayout);
        }
        if targ >= self.n_qubits {
            return Err(TableauError::IndexOutOfRange);
        }
        let ghost v0 = old(self)@;
        proof {
            assert(v0.x[targ as int] == self.x_component@[targ as int]@);
            assert(v0.z[targ as int] == self.z_component@[targ as int]@);
            assert(v0.x[targ as int].len() == regs_per_vec(v0.n));
            assert(v0.z[targ as int].len() == regs_per_vec(v0.n));
        }
        let mut zt = self.z_component[targ].duplicate();
        zt.xor(&self.x_component[targ]);
        self.z_component.set(targ, zt);
        let pcol = self.x_component[targ].and(&self.z_component[targ]);
        self.phase_component.xor(&pcol);
        proof {
            let vn = phase_dag_step(v0, targ as int);
            assert(self.z_component@[targ as int]@ == xor_words(
                v0.z[targ as int],
                v0.x[targ as int],
            ));
            assert(self@.x =~= vn.x);
            assert(self@.z =~= vn.z);
            assert(self@ =~= vn);
            assert forall|i: int|
                0 <= i < vn.n implies (#[trigger] vn.z[i]).len() == regs_per_vec(vn.n) by {
                assert(v0.z[i].len() == regs_per_vec(v0.n));
            }
            assert(vn.wf());
        }
        Ok(())
    }

    /// The identity gate: accepted for uniformity with a gate dispatch
    /// table, it always succeeds and changes nothing.
    pub fn identity(&mut self, targ: usize) -> (r: Result<(), TableauError>)
        ensures
            r == Ok::<(), TableauError>(()),
            *final(self) == *old(self),
    {
        let _ = targ;
        Ok(())
    }

    /// Complements every register of every row of one block (or of the
    /// phase vector): a diagnostic and bulk-initialization aid, not part
    /// of normal gate evolution.
    pub fn negate_all(&mut self, block: Block)
        requires
            old(self).wf(),
        ensures
            final(self).wf(),
            final(self)@.n == old(self)@.n,
            final(self)@.col_major == old(self)@.col_major,
            block == Block::X ==> final(self)@.z == old(self)@.z && final(self)@.phase == old(
                self,
            )@.phase && final(self)@.x.len() == old(self)@.x.len() && (forall|i: int|
                0 <= i < old(self)@.n ==> (#[trigger] final(self)@.x[i]) == not_words(
                    old(self)@.x[i],
                )),
            block == Block::Z ==> final(self)@.x == old(self)@.x && final(self)@.phase == old(
                self,
            )@.phase && final(self)@.z.len() == old(self)@.z.len() && (forall|i: int|
                0 <= i < old(self)@.n ==> (#[trigger] final(self)@.z[i]) == not_words(
                    old(self)@.z[i],
                )),
            block == Block::Phase ==> final(self)@.x == old(self)@.x && final(self)@.z == old(
                self,
            )@.z && final(self)@.phase == not_words(old(self)@.phase),
    {
        let ghost v0 = old(self)@;
        match block {
            Block::X => {
                let ghost orig: Seq<AlignedChunks> = self.x_component@;
                let ghost rest = (self.z_component@, self.phase_component@, self.n_qubits, self.col_major);
                let n: usize = self.x_component.len();
                let mut i: usize = 0;
                while i < n
                    invariant
                        i <= n,
                        n == self.x_component@.len(),
                        self.x_component@.len() == orig.len(),
                        (self.z_component@, self.phase_component@, self.n_qubits, self.col_major) == rest,
                        forall|j: int|
                            0 <= j < i ==> (#[trigger] self.x_component@[j]@) == not_words(
                                orig[j]@,
                            ),
                        forall|j: int| i <= j < n ==> self.x_component@[j] == orig[j],
                    decreases n - i,
                {
                    let mut row = self.x_component[i].duplicate();
                    row.inv();
                    self.x_component.set(i, row);
                    i = i + 1;
                }
                proof {
                    assert forall|j: int|
                        0 <= j < v0.n implies (#[trigger] self@.x[j]) == not_words(v0.x[j]) by {
                        assert(v0.x[j] == orig[j]@);
                        assert(self@.x[j] == self.x_component@[j]@);
                    }
                    assert forall|j: int|
                        0 <= j < v0.n implies (#[trigger] self@.x[j]).len() == regs_per_vec(
                        v0.n,
                    ) by {
                        assert(v0.x[j].len() == regs_per_vec(v0.n));
                    }
                    assert(self@.wf());
                }
            },
            Block::Z => {
                let ghost orig: Seq<AlignedChunks> = self.z_component@;
                let ghost rest = (self.x_component@, self.phase_component@, self.n_qubits, self.col_major);
                let n: usize = self.z_component.len();
                let mut i: usize = 0;
                while i < n
                    invariant
                        i <= n,
                        n == self.z_component@.len(),
                        self.z_component@.len() == orig.len(),
                        (self.x_component@, self.phase_component@, self.n_qubits, self.col_major) == rest,
                        forall|j: int|
                            0 <= j < i ==> (#[trigger] self.z_component@[j]@) == not_words(
                                orig[j]@,
                            ),
                        forall|j: int| i <= j < n ==> self.z_component@[j] == orig[j],
                    decreases n - i,
                {
                    let mut row = self.z_component[i].duplicate();
                    row.inv();
                    self.z_component.set(i, row);
                    i = i + 1;
                }
                proof {
                    assert forall|j: int|
                        0 <= j < v0.n implies (#[trigger] self@.z[j]) == not_words(v0.z[j]) by {
                        assert(v0.z[j] == orig[j]@);
                        assert(self@.z[j] == self.z_component@[j]@);
                    }
                    assert forall|j: int|
                        0 <= j < v0.n implies (#[trigger] self@.z[j]).len() == regs_per_vec(
                        v0.n,
                    ) by {
                        assert(v0.z[j].len() == regs_per_vec(v0.n));
                    }
                    assert(self@.wf());
                }
            },
            Block::Phase => {
                self.phase_component.inv();
            },
        }
    }

    /// Toggles the layout between row-major and column-major.  The only
    /// operation that changes how the storage is interpreted, it also
    /// physically transposes the X and Z bit matrices, so the logical
    /// tableau — every generator's X, Z and phase bits — reads the same
    /// before and after.  The transpose is performed eagerly on each
    /// call.
    pub fn flip_order(&mut self)
        requires
            old(self).wf(),
        ensures
            final(self).wf(),
            final(self)@.n == old(self)@.n,
            final(self)@.col_major == !old(self)@.col_major,
            final(self)@.phase == old(self)@.phase,
            forall|g: int, q: int|
                0 <= g < old(self)@.n && 0 <= q < old(self)@.n
                    ==> (#[trigger] final(self)@.x_bit(g, q)) == old(self)@.x_bit(g, q),
            forall|g: int, q: int|
                0 <= g < old(self)@.n && 0 <= q < old(self)@.n
                    ==> (#[trigger] final(self)@.z_bit(g, q)) == old(self)@.z_bit(g, q),
    {
        let ghost v0 = old(self)@;
        proof {
            assert forall|i: int| 0 <= i < v0.n implies (#[trigger] self.x_component@[i]@)
                == v0.x[i] && self.x_component@[i]@.len() == regs_per_vec(v0.n) by {
                assert(v0.x[i] == self.x_component@[i]@);
                assert(v0.x[i].len() == regs_per_vec(v0.n));
            }
            assert forall|i: int| 0 <= i < v0.n implies (#[trigger] self.z_component@[i]@)
                == v0.z[i] && self.z_component@[i]@.len() == regs_per_vec(v0.n) by {
                assert(v0.z[i] == self.z_component@[i]@);
                assert(v0.z[i].len() == regs_per_vec(v0.n));
            }
        }
        let n = self.n_qubits;
        let xt = transposed(&self.x_component, n);
        let zt = transposed(&self.z_component, n);
        self.x_component = xt;
        self.z_component = zt;
        self.col_major = !self.col_major;
        proof {
            let vn = self@;
            assert forall|i: int|
                0 <= i < vn.n implies (#[trigger] vn.x[i]).len() == regs_per_vec(vn.n) && (
            #[trigger] vn.z[i]).len() == regs_per_vec(vn.n) by {
                assert(vn.x[i] == xt@[i]@);
                assert(vn.z[i] == zt@[i]@);
            }
            assert(vn.wf());
            assert forall|g: int, q: int|
                0 <= g < v0.n && 0 <= q < v0.n implies (#[trigger] vn.x_bit(g, q)) == v0.x_bit(
                g,
                q,
            ) && (#[trigger] vn.z_bit(g, q)) == v0.z_bit(g, q) by {
                if v0.col_major {
                    assert(vn.x[g] == xt@[g]@);
                    assert(bit_at(xt@[g]@, q) == bit_at(old(self).x_component@[q]@, g));
                    assert(vn.z[g] == zt@[g]@);
                    assert(bit_at(zt@[g]@, q) == bit_at(old(self).z_component@[q]@, g));
                } else {
                    assert(vn.x[q] == xt@[q]@);
                    assert(bit_at(xt@[q]@, g) == bit_at(old(self).x_component@[g]@, q));
                    assert(vn.z[q] == zt@[q]@);
                    assert(bit_at(zt@[q]@, g) == bit_at(old(self).z_component@[g]@, q));
                }
            }
        }
    }

    /// Reads one bit of the tableau through the current layout: for the
    /// X and Z blocks the bit of generator `row` at qubit `col`, for the
    /// phase block the phase bit of generator `row` (the column argument
    /// is bounds-checked but does not select anything).  An out-of-range
    /// index is reported as an error.
    pub fn read_bit(&self, block: Block, row: usize, col: usize) -> (r: Result<
        bool,
        TableauError,
    >)
        requires
            self.wf(),
        ensures
            row < self@.n && col < self@.n ==> r == Ok::<bool, TableauError>(
                match block {
                    Block::X => self@.x_bit(row as int, col as int),
                    Block::Z => self@.z_bit(row as int, col as int),
                    Block::Phase => self@.phase_bit(row as int),
                },
            ),
            row >= self@.n || col >= self@.n ==> r == Err::<bool, TableauError>(
                TableauError::IndexOutOfRange,
            ),
    {
        if row >= self.n_qubits || col >= self.n_qubits {
            return Err(TableauError::IndexOutOfRange);
        }
        proof {
            lemma_bits_fit_regs(self.n_qubits as int);
        }
        match block {
            Block::X => {
                let (vec_idx, bit_idx) = if self.col_major {
                    (col, row)
                } else {
                    (row, col)
                };
                proof {
                    assert(self@.x[vec_idx as int] == self.x_component@[vec_idx as int]@);
                    assert(self@.x[vec_idx as int].len() == regs_per_vec(self@.n));
                }
                Ok(self.x_component[vec_idx].get_bit(bit_idx).unwrap())
            },
            Block::Z => {
                let (vec_idx, bit_idx) = if self.col_major {
                    (col, row)
                } else {
                    (row, col)
                };
                proof {
                    assert(self@.z[vec_idx as int] == self.z_component@[vec_idx as int]@);
                    assert(self@.z[vec_idx as int].len() == regs_per_vec(self@.n));
                }
                Ok(self.z_component[vec_idx].get_bit(bit_idx).unwrap())
            },
            Block::Phase => { Ok(self.phase_component.get_bit(row).unwrap()) },
        }
    }
}

/// Law: CNOT is self-inverse.  Applying the CNOT update twice with the
/// same control and target restores the tableau to its pre-call state.
pub proof fn lemma_cnot_self_inverse(v: TableauView, ctrl: int, targ: int)
    requires
        v.wf(),
        0 <= ctrl < v.n,
        0 <= targ < v.n,
        ctrl != targ,
    ensures
        cnot_step(cnot_step(v, ctrl, targ), ctrl, targ) == v,
{
    let v2 = cnot_step(cnot_step(v, ctrl, targ), ctrl, targ);
    lemma_xor_words_involution(v.x[targ], v.x[ctrl]);
    assert(v2.x =~= v.x);
    lemma_xor_words_involution(v.z[ctrl], v.z[targ]);
    assert(v2.z =~= v.z);
    assert(v2 =~= v);
}

/// Law: Phase-dagger undoes Phase.  Applying the S update and then the
/// S-dagger update on the same qubit, with nothing in between, restores
/// the X, Z and phase bits the S update started from.
pub proof fn lemma_phase_dag_undoes_phase(v: TableauView, targ: int)
    requires
        v.wf(),
        0 <= targ < v.n,
    ensures
        phase_dag_step(phase_step(v, targ), targ) == v,
{
    let v1 = phase_step(v, targ);
    let v2 = phase_dag_step(v1, targ);
    lemma_xor_words_involution(v.z[targ], v.x[targ]);
    assert(v2.z =~= v.z);
    lemma_xor_words_involution(v.phase, and_words(v.x[targ], v.z[targ]));
    assert(v2.phase =~= v.phase);
    assert(v2 =~= v);
}

/// Law: Hadamard is an involution.  Swapping the X and Z columns of the
/// same qubit twice restores the original columns.
pub proof fn lemma_hadamard_involution(v: TableauView, targ: int)
    requires
        v.wf(),
        0 <= targ < v.n,
    ensures
        hadamard_step(hadamard_step(v, targ), targ) == v,
{
    let v2 = hadamard_step(hadamard_step(v, targ), targ);
    assert(v2.x =~= v.x);
    assert(v2.z =~= v.z);
    assert(v2 =~= v);
}

/// The transpose of a square bit matrix of `n` rows: row `i` of the
/// result reads, bit for bit, column `i` of `block`.
fn transposed(block: &Vec<AlignedChunks>, n: usize) -> (r: Vec<AlignedChunks>)
    requires
        block@.len() == n,
        forall|i: int| 0 <= i < n ==> (#[trigger] block@[i]@).len() == regs_per_vec(n as nat),
    ensures
        r@.len() == n,
        forall|i: int| 0 <= i < n ==> (#[trigger] r@[i]@).len() == regs_per_vec(n as nat),
        forall|i: int, j: int|
            0 <= i < n && 0 <= j < n ==> (#[trigger] bit_at(r@[i]@, j)) == bit_at(
                block@[j]@,
                i,
            ),
{
    let mut rows: Vec<AlignedChunks> = Vec::new();
    let mut i: usize = 0;
    while i < n
        invariant
            i <= n,
            rows@.len() == i,
            block@.len() == n,
            forall|k: int| 0 <= k < n ==> (#[trigger] block@[k]@).len() == regs_per_vec(n as nat),
            forall|k: int| 0 <= k < i ==> (#[trigger] rows@[k]@).len() == regs_per_vec(n as nat),
            forall|k: int, j: int|
                0 <= k < i && 0 <= j < n ==> (#[trigger] bit_at(rows@[k]@, j)) == bit_at(
                    block@[j]@,
                    k,
                ),
        decreases n - i,
    {
        let row = transposed_row(block, n, i);
        rows.push(row);
        i = i + 1;
    }
    rows
}

/// Row `i` of the transpose: a fresh bit vector whose bit `j` is bit `i`
/// of `block[j]`.
fn transposed_row(block: &Vec<AlignedChunks>, n: usize, i: usize) -> (row: AlignedChunks)
    requires
        block@.len() == n,
        i < n,
        forall|k: int| 0 <= k < n ==> (#[trigger] block@[k]@).len() == regs_per_vec(n as nat),
    ensures
        row@.len() == regs_per_vec(n as nat),
        forall|j: int|
            0 <= j < n ==> (#[trigger] bit_at(row@, j)) == bit_at(block@[j]@, i as int),
{
    let ghost regs = regs_per_vec(n as nat);
    let mut row = AlignedChunks::new(n);
    proof {
        lemma_bits_fit_regs(n as int);
        assert forall|jj: int| 0 <= jj < 64 * regs implies !(#[trigger] bit_at(row@, jj)) by {
            lemma_zero_words_bit(regs, jj);
        }
    }
    let mut j: usize = 0;
    while j < n
        invariant
            j <= n,
            i < n,
            block@.len() == n,
            forall|k: int| 0 <= k < n ==> (#[trigger] block@[k]@).len() == regs_per_vec(n as nat),
            row@.len() == regs,
            regs == regs_per_vec(n as nat),
            n < 64 * regs,
            forall|jj: int|
                0 <= jj < j ==> (#[trigger] bit_at(row@, jj)) == bit_at(block@[jj]@, i as int),
            forall|jj: int| j <= jj < 64 * regs ==> !(#[trigger] bit_at(row@, jj)),
        decreases n - j,
    {
        let ghost prev = row@;
        let b = block[j].get_bit(i).unwrap();
        if b {
            row.set_word_bit(j);
        }
        proof {
            if b {
                assert forall|jj: int|
                    0 <= jj < 64 * regs implies (#[trigger] bit_at(row@, jj)) == (jj == j
                    || bit_at(prev, jj)) by {
                    lemma_bit_at_set(prev, j as int, jj);
                }
            }
        }
        j = j + 1;
    }
    row
}

} // verus!
