use sudoku_circuit::cells::AssignedGrid;
use sudoku_circuit::circuit::{
    Error, MainGateConfig, RangeCheckGate, SudokuCircuit, SudokuConfig, GROUP_CONSTANT,
};
use sudoku_circuit::gate::{range_check, MAX_SUDOKU_CELL_VALUE};
use sudoku_circuit::grid::{Grid, GridError};
use sudoku_circuit::region::{Constraint, Region};

fn config() -> SudokuConfig {
    SudokuConfig::new(MainGateConfig { advices: [7, 8, 9, 10, 11] }, 1, 3)
}

fn counting_grid() -> Grid {
    Grid::from_shape_vec((9, 9), (0..81).collect()).unwrap()
}

fn circuit() -> SudokuCircuit {
    SudokuCircuit::new(counting_grid(), counting_grid())
}

#[test]
fn the_range_check_takes_the_digits_and_the_blank() {
    assert_eq!(MAX_SUDOKU_CELL_VALUE, 10);
    for v in 0..10u64 {
        assert!(range_check(v, MAX_SUDOKU_CELL_VALUE));
    }
    assert!(!range_check(10, MAX_SUDOKU_CELL_VALUE));
    assert!(!range_check(255, MAX_SUDOKU_CELL_VALUE));
    assert!(!range_check(u64::MAX, MAX_SUDOKU_CELL_VALUE));
}

#[test]
fn the_range_check_with_small_bounds() {
    assert!(!range_check(0, 0));
    assert!(range_check(0, 1));
    assert!(!range_check(1, 1));
    assert!(range_check(1, 2));
}

#[test]
fn a_grid_keeps_shape_and_order() {
    let grid = Grid::from_shape_vec((2, 3), vec![1, 2, 3, 4, 5, 6]).unwrap();
    assert_eq!(grid.dim(), (2, 3));
    assert_eq!(grid.to_vec(), vec![1, 2, 3, 4, 5, 6]);
    let other = Grid::from_shape_vec((3, 2), vec![1, 2, 3, 4, 5, 6]).unwrap();
    assert_eq!(other.dim(), (3, 2));
    assert_ne!(grid, other);
}

#[test]
fn a_grid_refuses_elements_that_do_not_fill_the_shape() {
    assert_eq!(
        Grid::from_shape_vec((2, 3), vec![1, 2, 3, 4, 5]).unwrap_err(),
        GridError::IncompatibleShape
    );
    assert_eq!(
        Grid::from_shape_vec((2, 3), vec![1, 2, 3, 4, 5, 6, 7]).unwrap_err(),
        GridError::IncompatibleShape
    );
    assert_eq!(
        Grid::from_shape_vec((0, usize::MAX), vec![]).unwrap_err(),
        GridError::IncompatibleShape
    );
    assert!(Grid::from_shape_vec((0, 5), vec![]).is_ok());
}

#[test]
fn the_default_grid_is_empty() {
    let grid = Grid::default();
    assert_eq!(grid.dim(), (0, 0));
    assert!(grid.to_vec().is_empty());
}

#[test]
fn the_descriptor_watches_the_first_advice_column() {
    let config = config();
    assert_eq!(config.public_input_puzzle(), 1);
    assert_eq!(config.range_check_selector(), 3);
    assert_eq!(config.main_gate().advices, [7, 8, 9, 10, 11]);
    let gate = config.range_check();
    assert_eq!(gate, RangeCheckGate { selector: 3, column: 7, range: 10 });
    assert_eq!(gate.degree(), 10);
}

#[test]
fn configure_gives_the_same_descriptor() {
    let config = SudokuCircuit::configure(MainGateConfig { advices: [4, 3, 2, 1, 0] }, 2, 5);
    assert_eq!(config.public_input_puzzle(), 2);
    assert_eq!(config.range_check(), RangeCheckGate { selector: 5, column: 4, range: 10 });
}

#[test]
fn assigned_cells_by_row_column_and_square() {
    let grid = AssignedGrid { cells: (100..181).collect() };
    assert_eq!(grid.get(0, 0), 100);
    assert_eq!(grid.get(4, 7), 100 + 4 * 9 + 7);
    assert_eq!(grid.get(8, 8), 180);
    assert_eq!(grid.row(2), vec![118, 119, 120, 121, 122, 123, 124, 125, 126]);
    assert_eq!(grid.column(2), vec![102, 111, 120, 129, 138, 147, 156, 165, 174]);
    assert_eq!(grid.square(3, 6), vec![133, 134, 135, 142, 143, 144, 151, 152, 153]);
    assert_eq!(grid.square(0, 0), vec![100, 101, 102, 109, 110, 111, 118, 119, 120]);
}

#[test]
fn the_region_records_what_is_assigned_and_laid() {
    let mut region = Region::new();
    assert!(region.witness.is_empty() && region.constraints.is_empty());
    region.enable_range_check(10);
    assert_eq!(region.assign_value(7), 0);
    assert_eq!(region.assign_value(0), 1);
    assert_eq!(region.assign_value(7), 2);
    assert_eq!(region.is_zero(0), 3);
    assert_eq!(region.is_zero(1), 4);
    assert_eq!(region.is_equal(0, 2), 5);
    assert_eq!(region.is_equal(0, 1), 6);
    region.one_or_one(3, 5);
    region.assert_not_equal(0, 1);
    region.assert_zero_sum(vec![0, 1, 2], -14);
    region.constrain_instance(2, 0);
    assert_eq!(region.witness, vec![7, 0, 7, 0, 1, 1, 0]);
    assert_eq!(
        region.constraints,
        vec![
            Constraint::Range { cell: 0, range: 10 },
            Constraint::IsZero { a: 0, out: 3 },
            Constraint::IsZero { a: 1, out: 4 },
            Constraint::IsEqual { a: 0, b: 2, out: 5 },
            Constraint::IsEqual { a: 0, b: 1, out: 6 },
            Constraint::OneOrOne { a: 3, b: 5 },
            Constraint::NotEqual { a: 0, b: 1 },
            Constraint::ZeroSum { cells: vec![0, 1, 2], constant: -14 },
            Constraint::Instance { cell: 2, row: 0 },
        ]
    );
    assert_eq!(region.verify(&vec![7]), Ok(()));
    assert_eq!(region.verify(&vec![8]), Err(vec![8]));
    assert_eq!(region.verify(&vec![]), Err(vec![8]));
}

#[test]
fn each_kind_of_constraint_on_a_witness() {
    let witness: Vec<u64> = vec![0, 1, 5, 5, 9, 10];
    let instance: Vec<u64> = vec![5, 9];
    let holds = |c: Constraint| c.holds(&witness, &instance);
    assert!(holds(Constraint::Range { cell: 4, range: 10 }));
    assert!(!holds(Constraint::Range { cell: 5, range: 10 }));
    assert!(holds(Constraint::Range { cell: 5, range: 11 }));
    assert!(!holds(Constraint::Range { cell: 6, range: 10 }));
    assert!(!holds(Constraint::Range { cell: 0, range: 0 }));

    assert!(holds(Constraint::ZeroSum { cells: vec![1, 2, 4], constant: -15 }));
    assert!(!holds(Constraint::ZeroSum { cells: vec![1, 2, 4], constant: -16 }));
    assert!(!holds(Constraint::ZeroSum { cells: vec![1, 2, 4], constant: 15 }));
    assert!(holds(Constraint::ZeroSum { cells: vec![2, 2, 2], constant: -15 }));
    assert!(holds(Constraint::ZeroSum { cells: vec![], constant: 0 }));
    assert!(holds(Constraint::ZeroSum { cells: vec![0], constant: 0 }));
    assert!(!holds(Constraint::ZeroSum { cells: vec![1], constant: 1 }));
    assert!(!holds(Constraint::ZeroSum { cells: vec![1, 6], constant: -1 }));

    assert!(holds(Constraint::NotEqual { a: 1, b: 2 }));
    assert!(!holds(Constraint::NotEqual { a: 2, b: 3 }));
    assert!(!holds(Constraint::NotEqual { a: 2, b: 6 }));

    assert!(holds(Constraint::IsZero { a: 0, out: 1 }));
    assert!(!holds(Constraint::IsZero { a: 0, out: 0 }));
    assert!(holds(Constraint::IsZero { a: 2, out: 0 }));
    assert!(!holds(Constraint::IsZero { a: 2, out: 1 }));

    assert!(holds(Constraint::IsEqual { a: 2, b: 3, out: 1 }));
    assert!(!holds(Constraint::IsEqual { a: 2, b: 3, out: 0 }));
    assert!(holds(Constraint::IsEqual { a: 2, b: 4, out: 0 }));
    assert!(!holds(Constraint::IsEqual { a: 2, b: 4, out: 1 }));

    assert!(holds(Constraint::OneOrOne { a: 0, b: 1 }));
    assert!(holds(Constraint::OneOrOne { a: 1, b: 0 }));
    assert!(holds(Constraint::OneOrOne { a: 1, b: 1 }));
    assert!(!holds(Constraint::OneOrOne { a: 0, b: 0 }));
    assert!(!holds(Constraint::OneOrOne { a: 0, b: 2 }));

    assert!(holds(Constraint::Instance { cell: 2, row: 0 }));
    assert!(holds(Constraint::Instance { cell: 4, row: 1 }));
    assert!(!holds(Constraint::Instance { cell: 4, row: 0 }));
    assert!(!holds(Constraint::Instance { cell: 0, row: 2 }));
}

#[test]
fn a_sum_of_large_values_does_not_wrap() {
    let witness: Vec<u64> = vec![u64::MAX, u64::MAX, 2];
    let instance: Vec<u64> = vec![];
    // The two large values add up to 2^65 - 2, which no constant undoes.
    assert!(!Constraint::ZeroSum { cells: vec![0, 1, 2], constant: 0 }.holds(&witness, &instance));
    assert!(!Constraint::ZeroSum { cells: vec![0, 1], constant: 2 }.holds(&witness, &instance));
    assert!(Constraint::ZeroSum { cells: vec![2], constant: -2 }.holds(&witness, &instance));
    assert!(!Constraint::ZeroSum { cells: vec![2], constant: i64::MIN }.holds(&witness, &instance));
}

#[test]
fn verify_lists_every_failure_in_order() {
    let mut region = Region::new();
    region.assign_value(3);
    region.assign_value(3);
    region.assert_not_equal(0, 1);
    region.assert_zero_sum(vec![0, 1], -6);
    region.assert_zero_sum(vec![0, 1], -7);
    region.one_or_one(0, 1);
    region.constrain(Constraint::Range { cell: 1, range: 4 });
    assert_eq!(region.verify(&vec![]), Err(vec![0, 2, 3]));
}

#[test]
fn a_group_is_summed_and_its_neighbours_told_apart() {
    let mut region = Region::new();
    circuit().check_nine_cells(&config(), &mut region, vec![3, 1, 2]);
    assert_eq!(GROUP_CONSTANT, -45);
    assert_eq!(
        region.constraints,
        vec![
            Constraint::ZeroSum { cells: vec![3, 1, 2], constant: -45 },
            Constraint::NotEqual { a: 3, b: 1 },
            Constraint::NotEqual { a: 1, b: 2 },
        ]
    );
    assert!(region.witness.is_empty());
}

#[test]
fn a_group_of_one_cell_has_no_neighbours() {
    let mut region = Region::new();
    circuit().check_nine_cells(&config(), &mut region, vec![5]);
    circuit().check_nine_cells(&config(), &mut region, vec![]);
    assert_eq!(
        region.constraints,
        vec![
            Constraint::ZeroSum { cells: vec![5], constant: -45 },
            Constraint::ZeroSum { cells: vec![], constant: -45 },
        ]
    );
}

#[test]
fn a_board_is_loaded_row_by_row_with_every_cell_range_checked() {
    let mut region = Region::new();
    region.assign_value(42);
    let cells = circuit().load_board(&config(), &mut region, &counting_grid()).unwrap();
    assert_eq!(cells.cells, (1..82).collect::<Vec<usize>>());
    assert_eq!(region.witness.len(), 82);
    assert_eq!(region.witness[0], 42);
    for k in 0..81 {
        assert_eq!(region.witness[1 + k], k as u64);
        assert_eq!(region.constraints[k], Constraint::Range { cell: 1 + k, range: 10 });
    }
    assert_eq!(region.constraints.len(), 81);
}

#[test]
fn a_board_of_another_shape_is_not_loaded() {
    let mut region = Region::new();
    region.assign_value(42);
    let board = Grid::from_shape_vec((27, 3), vec![1; 81]).unwrap();
    let result = circuit().load_board(&config(), &mut region, &board);
    assert_eq!(result.unwrap_err(), Error::BoardShape { rows: 27, cols: 3 });
    assert_eq!(region.witness, vec![42]);
    assert!(region.constraints.is_empty());
}

#[test]
fn the_circuit_is_laid_in_its_order() {
    let puzzle = Grid::from_shape_vec((9, 9), vec![0; 81]).unwrap();
    let mut cells = vec![0; 81];
    cells[0] = 2;
    let puzzle_with_one = Grid::from_shape_vec((9, 9), cells).unwrap();
    let region = SudokuCircuit::new(puzzle, counting_grid()).synthesize(&config()).unwrap();
    assert_eq!(region.witness.len(), 162 + 2 * 81);
    assert_eq!(region.constraints.len(), 162 + 27 * 9 + 81 * 3 + 81);

    // The boards: the puzzle in rows 0..81, the solution in rows 81..162.
    assert_eq!(region.witness[..81], vec![0u64; 81][..]);
    assert_eq!(region.witness[81..162], (0..81).collect::<Vec<u64>>()[..]);
    assert_eq!(region.constraints[161], Constraint::Range { cell: 161, range: 10 });

    // The lines: row 0, column 0, row 1, column 1, and so on.
    assert_eq!(
        region.constraints[162],
        Constraint::ZeroSum { cells: (81..90).collect(), constant: -45 }
    );
    assert_eq!(region.constraints[163], Constraint::NotEqual { a: 81, b: 82 });
    assert_eq!(region.constraints[170], Constraint::NotEqual { a: 88, b: 89 });
    assert_eq!(
        region.constraints[171],
        Constraint::ZeroSum {
            cells: vec![81, 90, 99, 108, 117, 126, 135, 144, 153],
            constant: -45
        }
    );
    assert_eq!(region.constraints[172], Constraint::NotEqual { a: 81, b: 90 });
    assert_eq!(
        region.constraints[180],
        Constraint::ZeroSum { cells: (90..99).collect(), constant: -45 }
    );

    // The squares, row by row: the second starts at column 3, the fourth
    // at row 3.
    assert_eq!(
        region.constraints[324 + 9],
        Constraint::ZeroSum {
            cells: vec![84, 85, 86, 93, 94, 95, 102, 103, 104],
            constant: -45
        }
    );
    assert_eq!(
        region.constraints[324 + 27],
        Constraint::ZeroSum {
            cells: vec![108, 109, 110, 117, 118, 119, 126, 127, 128],
            constant: -45
        }
    );
    assert_eq!(region.constraints[324 + 27 + 3], Constraint::NotEqual { a: 110, b: 117 });

    // The binds: for each cell two indicators and one assertion.
    assert_eq!(region.constraints[405], Constraint::IsZero { a: 0, out: 162 });
    assert_eq!(region.constraints[406], Constraint::IsEqual { a: 0, b: 81, out: 163 });
    assert_eq!(region.constraints[407], Constraint::OneOrOne { a: 162, b: 163 });
    assert_eq!(region.constraints[405 + 3 * 80 + 1], Constraint::IsEqual { a: 80, b: 161, out: 323 });
    // Every puzzle cell is blank; only the first equals its solution cell.
    assert_eq!(region.witness[162..166], [1, 1, 1, 0]);

    // The public input: slot k for cell k.
    assert_eq!(region.constraints[648], Constraint::Instance { cell: 0, row: 0 });
    assert_eq!(region.constraints[728], Constraint::Instance { cell: 80, row: 80 });

    let other = SudokuCircuit::new(puzzle_with_one, counting_grid()).synthesize(&config()).unwrap();
    assert_eq!(other.witness[162..166], [0, 0, 1, 0]);
    assert_eq!(other.constraints, region.constraints);
}
