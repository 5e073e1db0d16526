//! Tests for the bit register and the bit vector storage layer.

use stab_tableau::AlignedChunk;
use stab_tableau::AlignedChunks;
use stab_tableau::TableauError;

#[test]
fn register_starts_zero() {
    let c = AlignedChunk::new();
    assert_eq!(c.len(), 1);
    for i in 0..64 {
        assert_eq!(c.get_bit(i).unwrap(), 0);
    }
}

#[test]
fn register_set_and_clear_bit() {
    let mut c = AlignedChunk::new();
    c.set_bit(5).unwrap();
    assert_eq!(c.get_bit(5).unwrap(), 1u64 << 5);
    assert_eq!(c.get_bit(4).unwrap(), 0);
    c.set_bit(63).unwrap();
    assert_eq!(c.get_bit(63).unwrap(), 1u64 << 63);
    c.clear_bit(5).unwrap();
    assert_eq!(c.get_bit(5).unwrap(), 0);
    assert_eq!(c.get_bit(63).unwrap(), 1u64 << 63);
}

#[test]
fn register_index_out_of_range() {
    let mut c = AlignedChunk::new();
    assert_eq!(c.get_bit(64), Err(TableauError::IndexOutOfRange));
    assert_eq!(c.set_bit(64), Err(TableauError::IndexOutOfRange));
    assert_eq!(c.clear_bit(100), Err(TableauError::IndexOutOfRange));
    // a rejected call leaves the register unchanged
    for i in 0..64 {
        assert_eq!(c.get_bit(i).unwrap(), 0);
    }
}

#[test]
fn register_xor_and_negate() {
    let mut a = AlignedChunk::new();
    let mut b = AlignedChunk::new();
    a.set_bit(1).unwrap();
    a.set_bit(2).unwrap();
    b.set_bit(2).unwrap();
    b.set_bit(3).unwrap();
    a.xor(&b);
    assert_eq!(a.get_bit(1).unwrap(), 1u64 << 1);
    assert_eq!(a.get_bit(2).unwrap(), 0);
    assert_eq!(a.get_bit(3).unwrap(), 1u64 << 3);
    let masked = a.and(&b);
    assert_eq!(masked.get_bit(3).unwrap(), 1u64 << 3);
    assert_eq!(masked.get_bit(1).unwrap(), 0);
    a.negate();
    assert_eq!(a.get_bit(1).unwrap(), 0);
    assert_eq!(a.get_bit(2).unwrap(), 1u64 << 2);
    assert_eq!(a.get_bit(0).unwrap(), 1u64 << 0);
}

#[test]
fn chunking_arithmetic() {
    // register count is n_qubits / 64 + 1
    assert_eq!(AlignedChunks::new(8).len(), 1);
    assert_eq!(AlignedChunks::new(63).len(), 1);
    assert_eq!(AlignedChunks::new(64).len(), 2);
    assert_eq!(AlignedChunks::new(127).len(), 2);
    assert_eq!(AlignedChunks::new(128).len(), 3);
    assert_eq!(AlignedChunks::new(1024).len(), 1024 / 64 + 1);
    assert_eq!(AlignedChunks::new(0).len(), 1);
}

#[test]
fn vector_starts_zero() {
    let v = AlignedChunks::new(128);
    for i in 0..(64 * v.len()) {
        assert_eq!(v.get_bit(i).unwrap(), false);
    }
}

#[test]
fn vector_set_and_get_bit() {
    let mut v = AlignedChunks::new(200);
    v.set_bit(0).unwrap();
    v.set_bit(70).unwrap();
    v.set_bit(199).unwrap();
    for i in 0..(64 * v.len()) {
        let expected = i == 0 || i == 70 || i == 199;
        assert_eq!(v.get_bit(i).unwrap(), expected);
    }
    assert_eq!(v.get_bit(64 * v.len()), Err(TableauError::IndexOutOfRange));
    assert_eq!(v.set_bit(64 * v.len()), Err(TableauError::IndexOutOfRange));
}

#[test]
fn identity_seed_has_one_bit() {
    let v = AlignedChunks::new_z(100, 77).unwrap();
    for i in 0..(64 * v.len()) {
        assert_eq!(v.get_bit(i).unwrap(), i == 77);
    }
    assert!(matches!(
        AlignedChunks::new_z(100, 100),
        Err(TableauError::IndexOutOfRange)
    ));
    assert!(matches!(
        AlignedChunks::new_z(0, 0),
        Err(TableauError::IndexOutOfRange)
    ));
}

#[test]
fn xor_involution() {
    // applying xor with the same operand twice restores the original
    let mut a = AlignedChunks::new(150);
    let mut b = AlignedChunks::new(150);
    a.set_bit(3).unwrap();
    a.set_bit(100).unwrap();
    b.set_bit(100).unwrap();
    b.set_bit(149).unwrap();
    a.xor(&b);
    assert_eq!(a.get_bit(3).unwrap(), true);
    assert_eq!(a.get_bit(100).unwrap(), false);
    assert_eq!(a.get_bit(149).unwrap(), true);
    a.xor(&b);
    for i in 0..(64 * a.len()) {
        assert_eq!(a.get_bit(i).unwrap(), i == 3 || i == 100);
    }
}

#[test]
fn negate_involution() {
    let mut v = AlignedChunks::new(90);
    v.set_bit(10).unwrap();
    v.set_bit(89).unwrap();
    v.inv();
    for i in 0..(64 * v.len()) {
        assert_eq!(v.get_bit(i).unwrap(), !(i == 10 || i == 89));
    }
    v.inv();
    for i in 0..(64 * v.len()) {
        assert_eq!(v.get_bit(i).unwrap(), i == 10 || i == 89);
    }
}

#[test]
fn partial_xor_equals_xor_on_zero_prefix() {
    // where the operand's registers before the start index hold no set
    // bit, the partial XOR and the full XOR agree bit for bit
    let mut a = AlignedChunks::new(256);
    let mut b = AlignedChunks::new(256);
    a.set_bit(10).unwrap();
    a.set_bit(140).unwrap();
    b.set_bit(140).unwrap();
    b.set_bit(200).unwrap();
    let mut a_full = a.duplicate();
    a_full.xor(&b);
    // b's registers 0 and 1 (bits 0..127) are zero, so starting at 2 skips nothing
    a.partial_xor(&b, 2);
    for i in 0..(64 * a.len()) {
        assert_eq!(a.get_bit(i).unwrap(), a_full.get_bit(i).unwrap());
    }
}

#[test]
fn partial_xor_beyond_len_is_noop() {
    let mut a = AlignedChunks::new(64);
    let mut b = AlignedChunks::new(64);
    a.set_bit(1).unwrap();
    b.set_bit(1).unwrap();
    b.set_bit(2).unwrap();
    a.partial_xor(&b, a.len());
    for i in 0..(64 * a.len()) {
        assert_eq!(a.get_bit(i).unwrap(), i == 1);
    }
    a.partial_xor(&b, a.len() + 10);
    for i in 0..(64 * a.len()) {
        assert_eq!(a.get_bit(i).unwrap(), i == 1);
    }
}

#[test]
fn bulk_xor_scenario() {
    // 1024 qubits; A has registers 2 and 3 negated (bits 128..255 set),
    // B has the odd registers among the first four negated (bits 64..127
    // and 192..255 set); A ^= B must set exactly bits 64..191
    let mut a = AlignedChunks::new(1024);
    let mut b = AlignedChunks::new(1024);
    assert_eq!(a.len(), 1024 / 64 + 1);
    for i in 2..4 {
        a.chunks[i].negate();
    }
    for i in 0..4 {
        if i % 2 == 1 {
            b.chunks[i].negate();
        }
    }
    for i in 0..(64 * a.len()) {
        assert_eq!(a.get_bit(i).unwrap(), (128..256).contains(&i));
        assert_eq!(b.get_bit(i).unwrap(), (64..128).contains(&i) || (192..256).contains(&i));
    }
    a.xor(&b);
    for i in 0..(64 * a.len()) {
        assert_eq!(a.get_bit(i).unwrap(), (64..192).contains(&i));
    }
    // a second XOR restores A
    a.xor(&b);
    for i in 0..(64 * a.len()) {
        assert_eq!(a.get_bit(i).unwrap(), (128..256).contains(&i));
    }
    // skipping the first three registers leaves only register 3 to flip
    a.partial_xor(&b, 3);
    for i in 0..(64 * a.len()) {
        assert_eq!(a.get_bit(i).unwrap(), (128..192).contains(&i));
    }
}

#[test]
fn duplicate_copies_every_register() {
    let mut v = AlignedChunks::new(130);
    v.set_bit(0).unwrap();
    v.set_bit(129).unwrap();
    let w = v.duplicate();
    assert_eq!(w.len(), v.len());
    for i in 0..(64 * v.len()) {
        assert_eq!(w.get_bit(i).unwrap(), v.get_bit(i).unwrap());
    }
}

#[test]
fn vector_and_masks_registers() {
    let mut a = AlignedChunks::new(128);
    let mut b = AlignedChunks::new(128);
    a.set_bit(5).unwrap();
    a.set_bit(100).unwrap();
    b.set_bit(100).unwrap();
    b.set_bit(127).unwrap();
    let m = a.and(&b);
    for i in 0..(64 * m.len()) {
        assert_eq!(m.get_bit(i).unwrap(), i == 100);
    }
}
