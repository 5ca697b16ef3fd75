use bullet_hell::gol::{GameOfLife, World};

fn board(cells: Vec<bool>, h: usize, w: usize) -> GameOfLife {
    GameOfLife::from_cells(cells, h, w).unwrap()
}

#[test]
fn blinker_turns_and_turns_back() {
    let vertical = vec![false, true, false, false, true, false, false, true, false];
    let horizontal = vec![false, false, false, true, true, true, false, false, false];
    let mut g = board(vertical.clone(), 3, 3);
    g.tick();
    assert_eq!(g.grid(), &horizontal);
    g.tick();
    assert_eq!(g.grid(), &vertical);
}

#[test]
fn block_is_still() {
    let block = vec![
        false, false, false, false, //
        false, true, true, false, //
        false, true, true, false, //
        false, false, false, false,
    ];
    let mut g = board(block.clone(), 4, 4);
    g.tick();
    assert_eq!(g.grid(), &block);
}

#[test]
fn empty_board_stays_empty() {
    let mut g = board(vec![false; 25], 5, 5);
    g.tick();
    assert_eq!(g.grid(), &vec![false; 25]);
}

#[test]
fn lonely_cell_dies_and_three_neighbours_give_birth() {
    let mut g = board(vec![true, false, false, false], 2, 2);
    g.tick();
    assert_eq!(g.grid(), &vec![false; 4]);
    let mut g = board(vec![true, true, true, false], 2, 2);
    g.tick();
    assert_eq!(g.grid(), &vec![true; 4]);
}

#[test]
fn single_row_board() {
    let mut g = board(vec![true, true, true], 1, 3);
    g.tick();
    assert_eq!(g.grid(), &vec![false, true, false]);
}

#[test]
fn boards_that_are_not_square() {
    // Cells lie row by row: cell (i, j) is at index w * i + j.
    let mut g = board(vec![true, false, true, true, true, false], 2, 3);
    g.tick();
    assert_eq!(g.grid(), &vec![true, false, false, true, true, false]);
    let mut g = board(vec![true, true, false, true, false, true, true, false], 2, 4);
    g.tick();
    assert_eq!(g.grid(), &vec![true, true, false, false, true, true, true, false]);
    let mut g = board(vec![true, true, false, true, false, true, true, false], 4, 2);
    g.tick();
    assert_eq!(g.grid(), &vec![true, true, false, true, true, true, false, false]);
    let mut g = board(vec![false, true, true, true, false, false], 3, 2);
    g.tick();
    assert_eq!(g.grid(), &vec![true, true, true, true, false, false]);
}

#[test]
fn mirrored_board_ticks_to_mirrored_board() {
    let c = vec![true, true, false, false, true, false, false, false, true];
    let mirrored: Vec<bool> = (0..9).map(|p| c[3 * (p / 3) + (2 - p % 3)]).collect();
    let mut g = board(c, 3, 3);
    let mut m = board(mirrored, 3, 3);
    g.tick();
    m.tick();
    for p in 0..9 {
        assert_eq!(m.grid()[p], g.grid()[3 * (p / 3) + (2 - p % 3)]);
    }
}

#[test]
fn update_leaves_board_alone() {
    let cells = vec![true, false, false, true];
    let g = board(cells.clone(), 2, 2);
    g.update("anything".to_string());
    assert_eq!(g.grid(), &cells);
}

#[test]
fn pos_is_row_major() {
    let g = board(vec![false; 6], 2, 3);
    assert_eq!(g.pos(0, 0), 0);
    assert_eq!(g.pos(0, 2), 2);
    assert_eq!(g.pos(1, 0), 3);
    assert_eq!(g.pos(1, 2), 5);
}

#[test]
fn get_reads_cells_and_is_dead_off_board() {
    let g = board(vec![false, true, true, false], 2, 2);
    assert!(!g.get(0, 0));
    assert!(g.get(0, 1));
    assert!(g.get(1, 0));
    assert!(!g.get(1, 1));
    assert!(!g.get(2, 0));
    assert!(!g.get(0, 2));
    assert!(!g.get(usize::MAX, usize::MAX));
}

#[test]
fn count_sees_all_eight_neighbours() {
    let mut cells = vec![true; 9];
    cells[4] = false;
    let g = board(cells, 3, 3);
    assert_eq!(g.count(1, 1), 8);
    assert_eq!(g.count(0, 0), 2);
    assert_eq!(g.count(2, 2), 2);
    assert_eq!(g.count(0, 1), 4);
    // Around a cell off the board only the board's cells count.
    assert_eq!(g.count(3, 3), 1);
}

#[test]
fn from_cells_checks_the_shape() {
    assert!(GameOfLife::from_cells(vec![false; 6], 2, 3).is_some());
    assert!(GameOfLife::from_cells(vec![false; 5], 2, 3).is_none());
    assert!(GameOfLife::from_cells(vec![false; 6], 3, 2).is_some());
    assert!(GameOfLife::from_cells(vec![], 3, 0).is_some());
    assert!(GameOfLife::from_cells(vec![], usize::MAX, 2).is_none());
    let g = GameOfLife::from_cells(vec![true, false, false, true], 2, 2).unwrap();
    assert_eq!(g.dims(), (2, 2));
}

#[test]
fn with_size_makes_a_board_of_that_size() {
    let g = GameOfLife::with_size(10, 10);
    assert_eq!(g.dims(), (10, 10));
    assert_eq!(g.grid().len(), 100);
    let g = GameOfLife::with_size(5, 2);
    assert_eq!(g.dims(), (5, 2));
    assert_eq!(g.grid().len(), 10);
    let g = GameOfLife::with_size(0, 4);
    assert!(g.grid().is_empty());
}

#[test]
fn randomize_only_brings_cells_to_life() {
    let mut g = board(vec![true; 16], 4, 4);
    g.randomize();
    assert_eq!(g.grid(), &vec![true; 16]);
    let mut g = board(vec![false; 400], 20, 20);
    g.randomize();
    let alive = g.grid().iter().filter(|c| **c).count();
    // 400 fair coins: all heads or all tails is out of the question.
    assert!(alive > 0 && alive < 400);
}

#[test]
fn seed_brings_cells_with_winning_coins_to_life() {
    // Coin w * i + j belongs to cell (i, j), at the same index.
    let mut g = board(vec![false; 6], 2, 3);
    g.seed(&vec![false, false, false, true, false, true]);
    assert_eq!(g.grid(), &vec![false, false, false, true, false, true]);
    let mut g = board(vec![true, false, false, false], 2, 2);
    g.seed(&vec![false, false, false, true]);
    assert_eq!(g.grid(), &vec![true, false, false, true]);
    let mut g = board(vec![true, false, true, false], 2, 2);
    g.seed(&vec![false; 4]);
    assert_eq!(g.grid(), &vec![true, false, true, false]);
}
