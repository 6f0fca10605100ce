use game_of_life::Universe;

/// Clears every cell of the live generation.
fn clear(u: &mut Universe, width: u32, height: u32) {
    for row in 0..height {
        for col in 0..width {
            u.set_cell(row, col, false);
        }
    }
}

/// Collects the live generation as booleans, row-major, via `get_cell`.
fn snapshot(u: &Universe, width: u32, height: u32) -> Vec<bool> {
    let mut v = Vec::new();
    for row in 0..height {
        for col in 0..width {
            v.push(u.get_cell(row, col));
        }
    }
    v
}

#[test]
fn seed_pattern_3x3() {
    // Flat indices 0..9; alive iff i % 2 == 0 || i % 7 == 0: {0, 2, 4, 6, 7, 8}.
    let u = Universe::new(3, 3);
    let words = u.cells();
    assert_eq!(words.len(), 1);
    assert_eq!(words[0], 0b1_1101_0101);
    assert_eq!(
        snapshot(&u, 3, 3),
        vec![true, false, true, false, true, false, true, true, true]
    );
}

#[test]
fn golden_tick_3x3() {
    // On a 3x3 torus every cell is adjacent to all eight others, so each of
    // the six live cells sees five live neighbors and each dead cell sees
    // six: everything dies in one generation and stays dead.
    let mut u = Universe::new(3, 3);
    u.tick();
    assert_eq!(u.cells(), &[0u32][..]);
    u.tick();
    assert_eq!(u.cells(), &[0u32][..]);
}

#[test]
fn construction_is_deterministic() {
    let a = Universe::new(4, 5);
    let b = Universe::new(4, 5);
    assert_eq!(a.cells(), b.cells());
    let c = Universe::new(3, 3);
    let d = Universe::new(3, 3);
    assert_eq!(c.cells(), d.cells());
}

#[test]
fn repeated_ticks_are_deterministic() {
    let mut a = Universe::new(6, 6);
    let mut b = Universe::new(6, 6);
    for _ in 0..5 {
        a.tick();
        b.tick();
        assert_eq!(a.cells(), b.cells());
    }
}

#[test]
fn blinker_has_period_two() {
    // Three cells in a row on a 5x5 torus oscillate between a horizontal
    // and a vertical bar forever; total cell count stays 3 here, though the
    // rule never guarantees conservation in general.
    let mut u = Universe::new(5, 5);
    clear(&mut u, 5, 5);
    u.set_cell(2, 1, true);
    u.set_cell(2, 2, true);
    u.set_cell(2, 3, true);
    let horizontal = (1u32 << 11) | (1 << 12) | (1 << 13);
    let vertical = (1u32 << 7) | (1 << 12) | (1 << 17);
    assert_eq!(u.cells(), &[horizontal][..]);
    for _ in 0..3 {
        u.tick();
        assert_eq!(u.cells(), &[vertical][..]);
        u.tick();
        assert_eq!(u.cells(), &[horizontal][..]);
    }
}

#[test]
fn corner_cells_wrap_around() {
    // The four corners of a 4x4 torus are mutually adjacent through the
    // wraparound: each live corner sees exactly the other three, so the
    // four-corner pattern is a still life.  Without wraparound each corner
    // would starve and die.
    let mut u = Universe::new(4, 4);
    clear(&mut u, 4, 4);
    u.set_cell(0, 0, true);
    u.set_cell(0, 3, true);
    u.set_cell(3, 0, true);
    u.set_cell(3, 3, true);
    for _ in 0..3 {
        u.tick();
        for row in 0..4 {
            for col in 0..4 {
                let corner = (row == 0 || row == 3) && (col == 0 || col == 3);
                assert_eq!(u.get_cell(row, col), corner);
            }
        }
    }
}

#[test]
fn single_cell_grid_is_its_own_neighbor() {
    // On a 1x1 torus all eight neighbor offsets land on the cell itself, so
    // the lone live cell counts eight neighbors and dies of overpopulation.
    let mut u = Universe::new(1, 1);
    assert!(u.get_cell(0, 0));
    u.tick();
    assert!(!u.get_cell(0, 0));
    u.tick();
    assert!(!u.get_cell(0, 0));
}

#[test]
fn one_row_grid_wraps_to_itself() {
    // On a 3x1 torus the rows above and below a cell are its own row.  The
    // seed is 1,0,1: each live cell counts its live partner three times and
    // itself twice (five), the dead cell counts six; all die.
    let mut u = Universe::new(3, 1);
    assert_eq!(snapshot(&u, 3, 1), vec![true, false, true]);
    u.tick();
    assert_eq!(snapshot(&u, 3, 1), vec![false, false, false]);
}

#[test]
fn set_cell_then_get_cell() {
    let mut u = Universe::new(4, 4);
    clear(&mut u, 4, 4);
    u.set_cell(2, 3, true);
    assert!(u.get_cell(2, 3));
    u.set_cell(2, 3, false);
    assert!(!u.get_cell(2, 3));
    u.set_cell(0, 0, false);
    assert!(!u.get_cell(0, 0));
    // A write touches no other cell.
    u.set_cell(1, 1, true);
    assert!(!u.get_cell(1, 2));
    assert!(u.get_cell(1, 1));
}

#[test]
fn cells_packs_words_with_clear_tail() {
    // 33 x 2 = 66 cells need three words; the 30 bits past the grid in the
    // last word stay clear.
    let u = Universe::new(33, 2);
    let words = u.cells();
    assert_eq!(words.len(), 3);
    let mut expected: [u32; 3] = [0; 3];
    for i in 0..66usize {
        if i % 2 == 0 || i % 7 == 0 {
            expected[i / 32] |= 1 << (i % 32);
        }
    }
    assert_eq!(words, &expected[..]);
    assert_eq!(words[2], 1);
}

#[test]
fn zero_sized_grids_are_legal() {
    let mut u = Universe::new(0, 4);
    assert_eq!(u.cells().len(), 0);
    u.tick();
    assert_eq!(u.cells().len(), 0);
    let mut v = Universe::new(7, 0);
    v.tick();
    assert_eq!(v.cells().len(), 0);
}
