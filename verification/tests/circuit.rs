use sudoku_circuit::circuit::{Error, MainGateConfig, SudokuCircuit, SudokuConfig, VerifyError};
use sudoku_circuit::grid::Grid;

fn board(rows: &[[u8; 9]]) -> Grid {
    let mut cells: Vec<u8> = Vec::new();
    for row in rows {
        cells.extend_from_slice(row);
    }
    Grid::from_shape_vec((rows.len(), 9), cells).unwrap()
}

fn config() -> SudokuConfig {
    SudokuConfig::new(MainGateConfig { advices: [0, 1, 2, 3, 4] }, 1, 0)
}

fn public_input(puzzle: &Grid) -> Vec<u64> {
    puzzle.to_vec().into_iter().map(u64::from).collect()
}

fn prove_and_verify_circuit(puzzle: Grid, solution: Grid) -> Result<(), VerifyError> {
    let public_input_puzzle = public_input(&puzzle);
    let circuit = SudokuCircuit { puzzle, solution };
    circuit.prove_and_verify(&config(), &public_input_puzzle)
}

fn puzzle() -> Grid {
    board(&[
        [0, 0, 0, 2, 6, 0, 7, 0, 1],
        [6, 8, 0, 0, 7, 0, 0, 9, 0],
        [1, 9, 0, 0, 0, 4, 5, 0, 0],
        [8, 2, 0, 1, 0, 0, 0, 4, 0],
        [0, 0, 4, 6, 0, 2, 9, 0, 0],
        [0, 5, 0, 0, 0, 3, 0, 2, 8],
        [0, 0, 9, 3, 0, 0, 0, 7, 4],
        [0, 4, 0, 0, 5, 0, 0, 3, 6],
        [7, 0, 3, 0, 1, 8, 0, 0, 0],
    ])
}

const SOLUTION: [[u8; 9]; 9] = [
    [4, 3, 5, 2, 6, 9, 7, 8, 1],
    [6, 8, 2, 5, 7, 1, 4, 9, 3],
    [1, 9, 7, 8, 3, 4, 5, 6, 2],
    [8, 2, 6, 1, 9, 5, 3, 4, 7],
    [3, 7, 4, 6, 8, 2, 9, 1, 5],
    [9, 5, 1, 7, 4, 3, 6, 2, 8],
    [5, 1, 9, 3, 2, 6, 8, 7, 4],
    [2, 4, 8, 9, 5, 7, 1, 3, 6],
    [7, 6, 3, 4, 1, 8, 2, 5, 9],
];

#[test]
fn test_happy_path() {
    let puzzle = board(&[
        [0, 0, 0, 2, 6, 0, 7, 0, 1],
        [6, 8, 0, 0, 7, 0, 0, 9, 0],
        [1, 9, 0, 0, 0, 4, 5, 0, 0],
        [8, 2, 0, 1, 0, 0, 0, 4, 0],
        [0, 0, 4, 6, 0, 2, 9, 0, 0],
        [0, 5, 0, 0, 0, 3, 0, 2, 8],
        [0, 0, 9, 3, 0, 0, 0, 7, 4],
        [0, 4, 0, 0, 5, 0, 0, 3, 6],
        [7, 0, 3, 0, 1, 8, 0, 0, 0],
    ]);
    let solution = board(&[
        [4, 3, 5, 2, 6, 9, 7, 8, 1],
        [6, 8, 2, 5, 7, 1, 4, 9, 3],
        [1, 9, 7, 8, 3, 4, 5, 6, 2],
        [8, 2, 6, 1, 9, 5, 3, 4, 7],
        [3, 7, 4, 6, 8, 2, 9, 1, 5],
        [9, 5, 1, 7, 4, 3, 6, 2, 8],
        [5, 1, 9, 3, 2, 6, 8, 7, 4],
        [2, 4, 8, 9, 5, 7, 1, 3, 6],
        [7, 6, 3, 4, 1, 8, 2, 5, 9],
    ]);
    let result = prove_and_verify_circuit(puzzle, solution);
    assert_eq!(result, Ok(()));
}

#[test]
fn test_incorrect_solution() {
    let puzzle = board(&[
        [0, 0, 0, 2, 6, 0, 7, 0, 1],
        [6, 8, 0, 0, 7, 0, 0, 9, 0],
        [1, 9, 0, 0, 0, 4, 5, 0, 0],
        [8, 2, 0, 1, 0, 0, 0, 4, 0],
        [0, 0, 4, 6, 0, 2, 9, 0, 0],
        [0, 5, 0, 0, 0, 3, 0, 2, 8],
        [0, 0, 9, 3, 0, 0, 0, 7, 4],
        [0, 4, 0, 0, 5, 0, 0, 3, 6],
        [7, 0, 3, 0, 1, 8, 0, 0, 0],
    ]);
    let solution = board(&[
        [1, 3, 5, 2, 6, 9, 7, 8, 1], // top-left cell changed from 4 to 1
        [6, 8, 2, 5, 7, 1, 4, 9, 3],
        [1, 9, 7, 8, 3, 4, 5, 6, 2],
        [8, 2, 6, 1, 9, 5, 3, 4, 7],
        [3, 7, 4, 6, 8, 2, 9, 1, 5],
        [9, 5, 1, 7, 4, 3, 6, 2, 8],
        [5, 1, 9, 3, 2, 6, 8, 7, 4],
        [2, 4, 8, 9, 5, 7, 1, 3, 6],
        [7, 6, 3, 4, 1, 8, 2, 5, 9],
    ]);
    let result = prove_and_verify_circuit(puzzle, solution);
    assert!(result.is_err());
}

#[test]
fn test_solution_cell_out_of_range() {
    let puzzle = board(&[
        [0, 0, 0, 2, 6, 0, 7, 0, 1],
        [6, 8, 0, 0, 7, 0, 0, 9, 0],
        [1, 9, 0, 0, 0, 4, 5, 0, 0],
        [8, 2, 0, 1, 0, 0, 0, 4, 0],
        [0, 0, 4, 6, 0, 2, 9, 0, 0],
        [0, 5, 0, 0, 0, 3, 0, 2, 8],
        [0, 0, 9, 3, 0, 0, 0, 7, 4],
        [0, 4, 0, 0, 5, 0, 0, 3, 6],
        [7, 0, 3, 0, 1, 8, 0, 0, 0],
    ]);
    let solution = board(&[
        [10, 3, 5, 2, 6, 9, 7, 8, 1],
        [6, 8, 2, 5, 7, 1, 4, 9, 3],
        [1, 9, 7, 8, 3, 4, 5, 6, 2],
        [8, 2, 6, 1, 9, 5, 3, 4, 7],
        [3, 7, 4, 6, 8, 2, 9, 1, 5],
        [9, 5, 1, 7, 4, 3, 6, 2, 8],
        [5, 1, 9, 3, 2, 6, 8, 7, 4],
        [2, 4, 8, 9, 5, 7, 1, 3, 6],
        [7, 6, 3, 4, 1, 8, 2, 5, 9],
    ]);
    let result = prove_and_verify_circuit(puzzle, solution);
    assert!(result.is_err());
}

#[test]
fn test_solution_wrong_shape() {
    let puzzle = board(&[
        [0, 0, 0, 2, 6, 0, 7, 0, 1],
        [6, 8, 0, 0, 7, 0, 0, 9, 0],
        [1, 9, 0, 0, 0, 4, 5, 0, 0],
        [8, 2, 0, 1, 0, 0, 0, 4, 0],
        [0, 0, 4, 6, 0, 2, 9, 0, 0],
        [0, 5, 0, 0, 0, 3, 0, 2, 8],
        [0, 0, 9, 3, 0, 0, 0, 7, 4],
        [0, 4, 0, 0, 5, 0, 0, 3, 6],
        [7, 0, 3, 0, 1, 8, 0, 0, 0],
    ]);
    let solution = board(&[
        [1, 3, 5, 2, 6, 9, 7, 8, 1],
        [6, 8, 2, 5, 7, 1, 4, 9, 3],
        [1, 9, 7, 8, 3, 4, 5, 6, 2],
        [8, 2, 6, 1, 9, 5, 3, 4, 7],
    ]);
    let result = prove_and_verify_circuit(puzzle, solution);
    assert!(result.is_err());
    assert_eq!(result, Err(VerifyError::Synthesis(Error::BoardShape { rows: 4, cols: 9 })));
}

#[test]
fn test_valid_solution_but_wrong_public_input() {
    let puzzle = board(&[
        [0, 0, 0, 2, 6, 0, 7, 0, 1],
        [6, 8, 0, 0, 7, 0, 0, 9, 0],
        [1, 9, 0, 0, 0, 4, 5, 0, 0],
        [8, 2, 0, 1, 0, 0, 0, 4, 0],
        [0, 0, 4, 6, 0, 2, 9, 0, 0],
        [0, 5, 0, 0, 0, 3, 0, 2, 8],
        [0, 0, 9, 3, 0, 0, 0, 7, 4],
        [0, 4, 0, 0, 5, 0, 0, 3, 6],
        [7, 0, 3, 0, 1, 8, 0, 0, 0],
    ]);
    let solution = board(&[
        [4, 3, 5, 2, 6, 9, 7, 8, 1],
        [6, 8, 2, 5, 7, 1, 4, 9, 3],
        [1, 9, 7, 8, 3, 4, 5, 6, 2],
        [8, 2, 6, 1, 9, 5, 3, 4, 7],
        [3, 7, 4, 6, 8, 2, 9, 1, 5],
        [9, 5, 1, 7, 4, 3, 6, 2, 8],
        [5, 1, 9, 3, 2, 6, 8, 7, 4],
        [2, 4, 8, 9, 5, 7, 1, 3, 6],
        [7, 6, 3, 4, 1, 8, 2, 5, 9],
    ]);
    let circuit = SudokuCircuit { puzzle, solution };
    // Arrange the public inputs (correctly)
    let mut public_input_puzzle: Vec<u64> = public_input(&circuit.puzzle);

    // Now reverse the order of elements of the public input
    public_input_puzzle.reverse();

    // Prove as normal
    assert!(circuit.prove_and_verify(&config(), &public_input_puzzle).is_err());
}

#[test]
fn a_changed_cell_breaks_the_sum_of_its_row() {
    let mut rows = SOLUTION;
    rows[4][4] = 9; // was 8: the row now holds 9 twice and adds up to 46
    let result = prove_and_verify_circuit(puzzle(), board(&rows));
    // Row 4 is checked ninth among the lines, column 4 tenth; square 4 fifth
    // among the squares. Each check lays one sum and eight inequalities.
    let row_sum = 162 + 9 * (2 * 4);
    let column_sum = 162 + 9 * (2 * 4 + 1);
    let square_sum = 162 + 162 + 9 * 4;
    match result {
        Err(VerifyError::Unsatisfied(failed)) => {
            assert!(failed.contains(&row_sum));
            assert!(failed.contains(&column_sum));
            assert!(failed.contains(&square_sum));
        }
        other => panic!("{:?}", other),
    }
}

#[test]
fn every_single_change_of_the_top_left_cell_is_rejected() {
    for v in 0..=255u8 {
        let mut rows = SOLUTION;
        rows[0][0] = v;
        let result = prove_and_verify_circuit(puzzle(), board(&rows));
        assert_eq!(result.is_ok(), v == 4);
    }
}

#[test]
fn an_out_of_range_cell_fails_its_range_check() {
    let mut rows = SOLUTION;
    rows[0][0] = 10;
    match prove_and_verify_circuit(puzzle(), board(&rows)) {
        Err(VerifyError::Unsatisfied(failed)) => {
            // The solution's first cell is row 81 of the witness, and its
            // range check the eighty-second constraint.
            assert_eq!(failed[0], 81);
        }
        other => panic!("{:?}", other),
    }
}

#[test]
fn a_puzzle_cell_that_differs_from_the_solution_is_rejected() {
    let mut cells = puzzle().to_vec();
    cells[3] = 3; // the solution holds 2 there
    let puzzle = Grid::from_shape_vec((9, 9), cells).unwrap();
    let result = prove_and_verify_circuit(puzzle, board(&SOLUTION));
    // The boards take 162 constraints, the lines 162 and the squares 81.
    // Binding cell 3 lays the three behind 405 + 3 * 3; the last of them
    // asserts that one of the two indicators is one.
    assert_eq!(result, Err(VerifyError::Unsatisfied(vec![405 + 3 * 3 + 2])));
}

#[test]
fn a_blank_puzzle_cell_leaves_the_solution_cell_free() {
    let blank = Grid::from_shape_vec((9, 9), vec![0; 81]).unwrap();
    assert_eq!(prove_and_verify_circuit(blank, board(&SOLUTION)), Ok(()));
}

#[test]
fn a_reversed_public_input_fails_where_it_differs() {
    let circuit = SudokuCircuit { puzzle: puzzle(), solution: board(&SOLUTION) };
    let straight = public_input(&circuit.puzzle);
    let mut reversed = straight.clone();
    reversed.reverse();
    let expected: Vec<usize> =
        (0..81).filter(|&k| straight[k] != reversed[k]).map(|k| 405 + 243 + k).collect();
    assert!(!expected.is_empty());
    assert_eq!(
        circuit.prove_and_verify(&config(), &reversed),
        Err(VerifyError::Unsatisfied(expected))
    );
}

#[test]
fn a_reversed_public_input_passes_for_a_puzzle_that_reads_the_same_backwards() {
    let blank = Grid::from_shape_vec((9, 9), vec![0; 81]).unwrap();
    let circuit = SudokuCircuit { puzzle: blank, solution: board(&SOLUTION) };
    let mut reversed = public_input(&circuit.puzzle);
    reversed.reverse();
    assert_eq!(circuit.prove_and_verify(&config(), &reversed), Ok(()));
}

#[test]
fn a_public_input_that_is_too_short_is_rejected() {
    let circuit = SudokuCircuit { puzzle: puzzle(), solution: board(&SOLUTION) };
    let mut short = public_input(&circuit.puzzle);
    short.pop();
    assert_eq!(
        circuit.prove_and_verify(&config(), &short),
        Err(VerifyError::Unsatisfied(vec![405 + 243 + 80]))
    );
}

#[test]
fn a_puzzle_of_the_wrong_shape_is_named_before_the_solution() {
    let puzzle = Grid::from_shape_vec((3, 27), vec![0; 81]).unwrap();
    let solution = board(&SOLUTION[..4]);
    let circuit = SudokuCircuit { puzzle, solution };
    assert_eq!(
        circuit.synthesize(&config()).unwrap_err(),
        Error::BoardShape { rows: 3, cols: 27 }
    );
}

#[test]
fn verifying_twice_gives_the_same_result() {
    let mut rows = SOLUTION;
    rows[8][8] = 1;
    let circuit = SudokuCircuit { puzzle: puzzle(), solution: board(&rows) };
    let input = public_input(&circuit.puzzle);
    let first = circuit.prove_and_verify(&config(), &input);
    let second = circuit.prove_and_verify(&config(), &input);
    assert!(first.is_err());
    assert_eq!(first, second);

    let region = circuit.synthesize(&config()).unwrap();
    assert_eq!(region.verify(&input), region.verify(&input));
}

#[test]
fn neighbours_only_are_told_apart() {
    // Every row, column and square adds up to forty-five and no two
    // neighbours are equal, yet the first row holds 5 twice and 2 twice.
    let solution = board(&[
        [5, 2, 5, 2, 6, 9, 7, 8, 1],
        [6, 8, 2, 5, 7, 1, 4, 9, 3],
        [1, 9, 7, 8, 3, 4, 5, 6, 2],
        [8, 2, 6, 1, 9, 5, 3, 4, 7],
        [2, 8, 4, 6, 8, 2, 9, 1, 5],
        [9, 5, 1, 7, 4, 3, 6, 2, 8],
        [5, 1, 9, 3, 2, 6, 8, 7, 4],
        [2, 4, 8, 9, 5, 7, 1, 3, 6],
        [7, 6, 3, 4, 1, 8, 2, 5, 9],
    ]);
    assert_eq!(prove_and_verify_circuit(puzzle(), solution), Ok(()));
}

#[test]
fn the_circuit_without_witnesses_is_empty() {
    let circuit = SudokuCircuit { puzzle: puzzle(), solution: board(&SOLUTION) };
    let empty = circuit.without_witnesses();
    assert_eq!(empty.puzzle.dim(), (0, 0));
    assert_eq!(empty.solution.to_vec(), Vec::<u8>::new());
    assert_eq!(
        empty.synthesize(&config()).unwrap_err(),
        Error::BoardShape { rows: 0, cols: 0 }
    );
}
