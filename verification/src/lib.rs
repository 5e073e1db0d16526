//! Stabilizer-tableau simulation over bit-packed storage.
//!
//! The crate tracks a pure stabilizer state of `n_qubits` qubits in the
//! binary symplectic ("tableau") representation: each stabilizer generator
//! is an X bit row, a Z bit row, and a phase bit, and every Clifford gate
//! (CNOT, Hadamard, Phase, Phase-dagger) acts as a bounded XOR/swap update
//! over those bits.
//!
//! The storage layers are built leaves first: a fixed-width bit register
//! (`AlignedChunk`), an ordered sequence of registers sized to cover
//! `n_qubits` bits (`AlignedChunks`), and the tableau itself (`Tableau`),
//! which owns one bit vector per generator for each of the X block and the
//! Z block, plus a single phase vector.

pub mod aligned_chunk;
pub mod bits;
pub mod error;
pub mod tableau;

pub use aligned_chunk::AlignedChunk;
pub use aligned_chunk::AlignedChunks;
pub use error::TableauError;
pub use tableau::Block;
pub use tableau::Tableau;
