//! Tests for the symplectic tableau and its Clifford gate updates.

use stab_tableau::Block;
use stab_tableau::Tableau;
use stab_tableau::TableauError;

/// Every word of the tableau's storage, for whole-state comparisons.
fn snapshot(t: &Tableau) -> Vec<Vec<u64>> {
    let mut words: Vec<Vec<u64>> = Vec::new();
    for v in t.x_component.iter() {
        words.push(v.chunks.iter().map(|c| c.word).collect());
    }
    for v in t.z_component.iter() {
        words.push(v.chunks.iter().map(|c| c.word).collect());
    }
    words.push(t.phase_component.chunks.iter().map(|c| c.word).collect());
    words
}

#[test]
fn initialization_is_ground_state() {
    for n in [1usize, 2, 5, 64, 65] {
        let t = Tableau::new(n);
        assert_eq!(t.len(), n);
        for g in 0..n {
            for q in 0..n {
                assert_eq!(t.read_bit(Block::X, g, q).unwrap(), false);
                assert_eq!(t.read_bit(Block::Z, g, q).unwrap(), g == q);
            }
            assert_eq!(t.read_bit(Block::Phase, g, 0).unwrap(), false);
        }
    }
}

#[test]
fn empty_tableau() {
    let mut t = Tableau::new(0);
    assert_eq!(t.len(), 0);
    assert_eq!(t.read_bit(Block::X, 0, 0), Err(TableauError::IndexOutOfRange));
    assert_eq!(t.cnot(0, 1), Err(TableauError::IndexOutOfRange));
    assert_eq!(t.hadamard_col(0), Err(TableauError::IndexOutOfRange));
}

#[test]
fn hadamard_swaps_columns() {
    let mut t = Tableau::new(3);
    t.hadamard_col(0).unwrap();
    // the X and Z columns of qubit 0 swap: generator 0 now has an X bit
    // at qubit 0 and no Z bit there
    assert_eq!(t.read_bit(Block::X, 0, 0).unwrap(), true);
    assert_eq!(t.read_bit(Block::Z, 0, 0).unwrap(), false);
    // other qubits untouched
    assert_eq!(t.read_bit(Block::Z, 1, 1).unwrap(), true);
    assert_eq!(t.read_bit(Block::X, 1, 1).unwrap(), false);
}

#[test]
fn hadamard_involution() {
    let mut t = Tableau::new(4);
    t.hadamard_col(2).unwrap();
    t.cnot(2, 3).unwrap();
    let before = snapshot(&t);
    t.hadamard_col(3).unwrap();
    assert_ne!(snapshot(&t), before);
    t.hadamard_col(3).unwrap();
    assert_eq!(snapshot(&t), before);
}

#[test]
fn cnot_builds_bell_stabilizers() {
    let mut t = Tableau::new(2);
    t.hadamard_col(0).unwrap();
    t.cnot(0, 1).unwrap();
    // generator 0 is X on both qubits, generator 1 is Z on both qubits
    assert_eq!(t.read_bit(Block::X, 0, 0).unwrap(), true);
    assert_eq!(t.read_bit(Block::X, 0, 1).unwrap(), true);
    assert_eq!(t.read_bit(Block::Z, 0, 0).unwrap(), false);
    assert_eq!(t.read_bit(Block::Z, 0, 1).unwrap(), false);
    assert_eq!(t.read_bit(Block::X, 1, 0).unwrap(), false);
    assert_eq!(t.read_bit(Block::X, 1, 1).unwrap(), false);
    assert_eq!(t.read_bit(Block::Z, 1, 0).unwrap(), true);
    assert_eq!(t.read_bit(Block::Z, 1, 1).unwrap(), true);
    assert_eq!(t.read_bit(Block::Phase, 0, 0).unwrap(), false);
    assert_eq!(t.read_bit(Block::Phase, 1, 0).unwrap(), false);
}

#[test]
fn cnot_self_inverse() {
    let mut t = Tableau::new(5);
    t.hadamard_col(1).unwrap();
    t.cnot(1, 4).unwrap();
    t.phase(4).unwrap();
    let before = snapshot(&t);
    t.cnot(1, 3).unwrap();
    t.cnot(1, 3).unwrap();
    assert_eq!(snapshot(&t), before);
    // also across a pair already entangled
    t.cnot(4, 1).unwrap();
    t.cnot(4, 1).unwrap();
    assert_eq!(snapshot(&t), before);
}

#[test]
fn phase_updates_phase_from_pre_update_z() {
    let mut t = Tableau::new(2);
    // H then S on qubit 0: after H the X column of qubit 0 is generator 0
    // and its Z column is zero, so the first S leaves the phase clear;
    // the second S sees X and Z both set and flips the phase bit
    t.hadamard_col(0).unwrap();
    t.phase(0).unwrap();
    assert_eq!(t.read_bit(Block::Phase, 0, 0).unwrap(), false);
    assert_eq!(t.read_bit(Block::X, 0, 0).unwrap(), true);
    assert_eq!(t.read_bit(Block::Z, 0, 0).unwrap(), true);
    t.phase(0).unwrap();
    assert_eq!(t.read_bit(Block::Phase, 0, 0).unwrap(), true);
    assert_eq!(t.read_bit(Block::X, 0, 0).unwrap(), true);
    assert_eq!(t.read_bit(Block::Z, 0, 0).unwrap(), false);
}

#[test]
fn phase_dagger_undoes_phase() {
    let mut t = Tableau::new(3);
    t.hadamard_col(0).unwrap();
    t.cnot(0, 2).unwrap();
    t.phase(2).unwrap();
    let before = snapshot(&t);
    t.phase(2).unwrap();
    t.phase_dag(2).unwrap();
    assert_eq!(snapshot(&t), before);
    t.phase_dag(0).unwrap();
    t.phase(0).unwrap();
    assert_eq!(snapshot(&t), before);
}

#[test]
fn identity_changes_nothing() {
    let mut t = Tableau::new(3);
    t.hadamard_col(1).unwrap();
    let before = snapshot(&t);
    t.identity(1).unwrap();
    t.identity(2).unwrap();
    assert_eq!(snapshot(&t), before);
}

#[test]
fn cnot_rejects_equal_operands() {
    let mut t = Tableau::new(4);
    t.hadamard_col(0).unwrap();
    let before = snapshot(&t);
    for q in [0usize, 1, 3, 4, 100] {
        assert_eq!(t.cnot(q, q), Err(TableauError::InvalidOperands));
        assert_eq!(snapshot(&t), before);
    }
}

#[test]
fn gates_reject_out_of_range_qubits() {
    let mut t = Tableau::new(3);
    let before = snapshot(&t);
    assert_eq!(t.cnot(0, 3), Err(TableauError::IndexOutOfRange));
    assert_eq!(t.cnot(5, 1), Err(TableauError::IndexOutOfRange));
    assert_eq!(t.hadamard_col(3), Err(TableauError::IndexOutOfRange));
    assert_eq!(t.phase(7), Err(TableauError::IndexOutOfRange));
    assert_eq!(t.phase_dag(3), Err(TableauError::IndexOutOfRange));
    assert_eq!(t.read_bit(Block::Z, 3, 0), Err(TableauError::IndexOutOfRange));
    assert_eq!(t.read_bit(Block::Z, 0, 3), Err(TableauError::IndexOutOfRange));
    assert_eq!(snapshot(&t), before);
}

#[test]
fn gates_reject_row_major_layout() {
    let mut t = Tableau::new(3);
    t.hadamard_col(0).unwrap();
    t.cnot(0, 1).unwrap();
    t.flip_order();
    let before = snapshot(&t);
    assert_eq!(t.cnot(0, 1), Err(TableauError::InvalidLayout));
    assert_eq!(t.hadamard_col(0), Err(TableauError::InvalidLayout));
    assert_eq!(t.phase(1), Err(TableauError::InvalidLayout));
    assert_eq!(t.phase_dag(2), Err(TableauError::InvalidLayout));
    // equal operands take precedence over the layout check
    assert_eq!(t.cnot(1, 1), Err(TableauError::InvalidOperands));
    assert_eq!(snapshot(&t), before);
    // flipping back re-enables the gates
    t.flip_order();
    t.cnot(0, 1).unwrap();
}

#[test]
fn flip_order_preserves_logical_state() {
    let mut t = Tableau::new(5);
    t.hadamard_col(0).unwrap();
    t.cnot(0, 3).unwrap();
    t.phase(3).unwrap();
    t.hadamard_col(4).unwrap();
    t.phase(4).unwrap();
    let mut logical: Vec<(bool, bool)> = Vec::new();
    let mut phases: Vec<bool> = Vec::new();
    for g in 0..5 {
        for q in 0..5 {
            logical.push((
                t.read_bit(Block::X, g, q).unwrap(),
                t.read_bit(Block::Z, g, q).unwrap(),
            ));
        }
        phases.push(t.read_bit(Block::Phase, g, 0).unwrap());
    }
    t.flip_order();
    let mut k: usize = 0;
    for g in 0..5 {
        for q in 0..5 {
            assert_eq!(t.read_bit(Block::X, g, q).unwrap(), logical[k].0);
            assert_eq!(t.read_bit(Block::Z, g, q).unwrap(), logical[k].1);
            k += 1;
        }
        assert_eq!(t.read_bit(Block::Phase, g, 0).unwrap(), phases[g]);
    }
    // a second flip restores column-major order and the same state
    t.flip_order();
    let mut k: usize = 0;
    for g in 0..5 {
        for q in 0..5 {
            assert_eq!(t.read_bit(Block::X, g, q).unwrap(), logical[k].0);
            assert_eq!(t.read_bit(Block::Z, g, q).unwrap(), logical[k].1);
            k += 1;
        }
        assert_eq!(t.read_bit(Block::Phase, g, 0).unwrap(), phases[g]);
    }
}

#[test]
fn negate_all_flips_one_block() {
    let mut t = Tableau::new(3);
    t.hadamard_col(1).unwrap();
    let before = snapshot(&t);
    t.negate_all(Block::X);
    for g in 0..3 {
        for q in 0..3 {
            assert_eq!(t.read_bit(Block::X, g, q).unwrap(), !(g == 1 && q == 1));
            assert_eq!(t.read_bit(Block::Z, g, q).unwrap(), g == q && g != 1);
        }
        assert_eq!(t.read_bit(Block::Phase, g, 0).unwrap(), false);
    }
    t.negate_all(Block::Phase);
    for g in 0..3 {
        assert_eq!(t.read_bit(Block::Phase, g, 0).unwrap(), true);
    }
    // complementing twice restores every block
    t.negate_all(Block::X);
    t.negate_all(Block::Phase);
    assert_eq!(snapshot(&t), before);
    t.negate_all(Block::Z);
    t.negate_all(Block::Z);
    assert_eq!(snapshot(&t), before);
}

#[test]
fn flip_order_transposes_storage() {
    let mut t = Tableau::new(3);
    t.hadamard_col(0).unwrap();
    t.cnot(0, 2).unwrap();
    // column-major: vector q holds the bits of qubit q across generators
    assert!(t.col_major);
    assert_eq!(t.x_component[2].get_bit(0).unwrap(), true);
    t.flip_order();
    // row-major: vector g holds the bits of generator g across qubits
    assert!(!t.col_major);
    assert_eq!(t.x_component[0].get_bit(2).unwrap(), true);
    assert_eq!(t.x_component[2].get_bit(0).unwrap(), false);
}
