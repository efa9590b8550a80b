use atomsim::atom::{Vec2, UNIT};
use atomsim::grid::{CellTable, SetupError, MAX_INDICES};
use atomsim::layout::CELL_WORDS;

fn at(x: i64, y: i64) -> Vec2 {
    Vec2::new(x, y)
}

#[test]
fn cells_per_side_hundred_by_two() {
    let t = CellTable::build(&vec![], 100 * UNIT, 2 * UNIT).unwrap();
    assert_eq!(t.cells_per_side, 50);
    assert_eq!(t.cells.len(), 2500);
    assert_eq!(t.overflow, 0);
}

#[test]
fn cells_per_side_rounds_up() {
    let t = CellTable::build(&vec![], 10 * UNIT, 3 * UNIT).unwrap();
    assert_eq!(t.cells_per_side, 4);
    assert_eq!(t.cells.len(), 16);
}

#[test]
fn exact_multiple_does_not_round_up() {
    let t = CellTable::build(&vec![], 12, 3).unwrap();
    assert_eq!(t.cells_per_side, 4);
}

#[test]
fn atoms_go_to_their_cells_in_input_order() {
    // 4 x 4 cells of side 3 over [0, 10)
    let ps = vec![at(0, 0), at(4, 0), at(9, 9), at(2, 5), at(1, 1)];
    let t = CellTable::build(&ps, 10, 3).unwrap();
    assert_eq!(t.membership, vec![0, 1, 15, 4, 0]);
    assert_eq!(t.cells[0].count, 2);
    assert_eq!(&t.cells[0].indices[..2], &[0, 4]);
    assert_eq!(t.cells[1].count, 1);
    assert_eq!(t.cells[1].indices[0], 1);
    assert_eq!(t.cells[4].count, 1);
    assert_eq!(t.cells[4].indices[0], 3);
    assert_eq!(t.cells[15].count, 1);
    assert_eq!(t.cells[15].indices[0], 2);
    let total: i32 = t.cells.iter().map(|c| c.count).sum();
    assert_eq!(total, 5);
    // unused slots stay zero
    assert!(t.cells[0].indices[2..].iter().all(|&i| i == 0));
    assert!(t.cells[7].indices.iter().all(|&i| i == 0));
}

#[test]
fn each_atom_listed_once() {
    let ps: Vec<Vec2> = (0..40).map(|i| at((i * 7) % 20, (i * 3) % 20)).collect();
    let t = CellTable::build(&ps, 20, 5).unwrap();
    for i in 0..ps.len() {
        let holders: Vec<usize> = (0..t.cells.len())
            .filter(|&k| {
                let c = &t.cells[k];
                c.indices[..c.count as usize].contains(&(i as i32))
            })
            .collect();
        assert_eq!(holders, vec![t.membership[i] as usize]);
    }
}

#[test]
fn overflow_keeps_first_sixteen_and_counts_the_rest() {
    let ps: Vec<Vec2> = (0..20).map(|i| at(i, i)).collect();
    let t = CellTable::build(&ps, 100, 50).unwrap();
    assert_eq!(t.cells_per_side, 2);
    let c = t.cells[0];
    assert_eq!(c.count, 16);
    assert_eq!(c.count as usize, MAX_INDICES);
    let expected: Vec<i32> = (0..16).collect();
    assert_eq!(c.indices.to_vec(), expected);
    assert_eq!(t.overflow, 4);
    assert_eq!(t.max_count(), 16);
    assert_eq!(t.membership, vec![0u32; 20]);
}

#[test]
fn overflow_is_counted_per_cell() {
    let mut ps: Vec<Vec2> = (0..17).map(|_| at(1, 1)).collect();
    ps.extend((0..18).map(|_| at(7, 1)));
    ps.push(at(1, 7));
    let t = CellTable::build(&ps, 10, 5).unwrap();
    assert_eq!(t.overflow, 1 + 2);
    assert_eq!(t.cells[0].count, 16);
    assert_eq!(t.cells[1].count, 16);
    assert_eq!(t.cells[2].count, 1);
    assert_eq!(t.cells[1].indices[0], 17);
}

#[test]
fn max_count_of_sparse_grid() {
    let ps = vec![at(0, 0), at(1, 0), at(6, 6)];
    let t = CellTable::build(&ps, 10, 5).unwrap();
    assert_eq!(t.max_count(), 2);
}

#[test]
fn atom_on_the_far_edge_is_rejected() {
    let l = 100 * UNIT;
    let ps = vec![at(l, 0)];
    let r = CellTable::build(&ps, l, 2 * UNIT);
    assert_eq!(r.err(), Some(SetupError::OutOfDomain { atom: 0 }));
}

#[test]
fn first_atom_outside_is_named() {
    let ps = vec![at(1, 1), at(2, 10), at(-1, 0), at(3, 3)];
    let r = CellTable::build(&ps, 10, 2);
    assert_eq!(r.err(), Some(SetupError::OutOfDomain { atom: 1 }));
    let ps = vec![at(1, 1), at(2, -1)];
    let r = CellTable::build(&ps, 10, 2);
    assert_eq!(r.err(), Some(SetupError::OutOfDomain { atom: 1 }));
}

#[test]
fn last_point_inside_is_accepted() {
    let ps = vec![at(9, 9)];
    let t = CellTable::build(&ps, 10, 3).unwrap();
    assert_eq!(t.membership, vec![15]);
}

#[test]
fn sizes_must_be_positive() {
    assert_eq!(CellTable::build(&vec![], 0, 2).err(), Some(SetupError::InvalidSize));
    assert_eq!(CellTable::build(&vec![], 10, 0).err(), Some(SetupError::InvalidSize));
    assert_eq!(CellTable::build(&vec![], -5, 2).err(), Some(SetupError::InvalidSize));
}

#[test]
fn too_many_cells_is_rejected() {
    assert_eq!(CellTable::build(&vec![], 65536, 1).err(), Some(SetupError::TooManyCells));
    assert_eq!(
        CellTable::build(&vec![at(5, 5)], i64::MAX, 1).err(),
        Some(SetupError::TooManyCells)
    );
}

#[test]
fn size_error_comes_before_domain_error() {
    let ps = vec![at(-1, -1)];
    assert_eq!(CellTable::build(&ps, 10, 0).err(), Some(SetupError::InvalidSize));
}

#[test]
fn building_twice_gives_identical_bytes() {
    let ps: Vec<Vec2> = (0..30).map(|i| at((i * 13) % 50, (i * 29) % 50)).collect();
    let a = CellTable::build(&ps, 50, 7).unwrap();
    let b = CellTable::build(&ps, 50, 7).unwrap();
    assert_eq!(a.cells, b.cells);
    assert_eq!(a.membership, b.membership);
    assert_eq!(a.words(), b.words());
    assert_eq!(a.to_bytes(), b.to_bytes());
}

#[test]
fn words_lay_out_count_then_slots() {
    let ps = vec![at(0, 0), at(6, 0), at(1, 1)];
    let t = CellTable::build(&ps, 10, 5).unwrap();
    let w = t.words();
    assert_eq!(w.len(), 4 * CELL_WORDS);
    assert_eq!(&w[0..4], &[2, 0, 2, 0]);
    assert_eq!(&w[17..20], &[1, 1, 0]);
    assert_eq!(w[34], 0);
}

#[test]
fn bytes_are_the_words_in_memory_order() {
    let ps = vec![at(6, 0); 3];
    let t = CellTable::build(&ps, 10, 5).unwrap();
    let w = t.words();
    let b = t.to_bytes();
    assert_eq!(b.len(), 4 * w.len());
    let expected: Vec<u8> = w.iter().flat_map(|x| x.to_ne_bytes()).collect();
    assert_eq!(b, expected);
    // cell 1 count is 3, its slots 0, 1, 2
    assert_eq!(&b[68..72], &3i32.to_ne_bytes());
    assert_eq!(&b[80..84], &2i32.to_ne_bytes());
}
