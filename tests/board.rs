use tetris::block::{Block, BlockKind};
use tetris::board::{Board, Cell, BOARD_HEIGHT, BOARD_WIDTH};

const KINDS: [BlockKind; 7] = [
    BlockKind::I,
    BlockKind::J,
    BlockKind::L,
    BlockKind::O,
    BlockKind::S,
    BlockKind::T,
    BlockKind::Z,
];

fn grid(board: &Board) -> Vec<Vec<Option<i32>>> {
    board.get_cells_for_network()
}

fn board_from(rows: &[(usize, Vec<Option<i32>>)]) -> Board {
    let mut cells = vec![vec![None; BOARD_WIDTH]; BOARD_HEIGHT];
    for (y, row) in rows {
        cells[*y] = row.clone();
    }
    let mut b = Board::new();
    b.update_from_network(cells);
    b
}

fn full_row(v: i32) -> Vec<Option<i32>> {
    vec![Some(v); BOARD_WIDTH]
}

#[test]
fn kinds_have_colors_in_order() {
    for (i, k) in KINDS.iter().enumerate() {
        assert_eq!(k.color() as usize, i);
        assert_eq!(BlockKind::from_index(i), *k);
    }
    assert_eq!(BlockKind::from_index(42), BlockKind::Z);
}

#[test]
fn random_kind_is_one_of_seven() {
    for _ in 0..50 {
        let k = BlockKind::random();
        assert!(k.color() < 7);
    }
}

#[test]
fn new_block_spawns_at_top() {
    let b = Block::new(BlockKind::T);
    assert_eq!((b.x, b.y, b.rotation), (4, -2, 0));
}

#[test]
fn block_squares_follow_rotation() {
    let mut b = Block::new(BlockKind::I);
    b.x = 5;
    b.y = 3;
    assert_eq!(b.blocks(), [(5, 3), (4, 3), (6, 3), (7, 3)]);
    b.rotate();
    assert_eq!(b.blocks(), [(5, 3), (5, 2), (5, 4), (5, 5)]);
    b.rotate();
    assert_eq!(b.blocks(), [(5, 3), (6, 3), (4, 3), (3, 3)]);
    b.rotate();
    assert_eq!(b.blocks(), [(5, 3), (5, 4), (5, 2), (5, 1)]);
    b.rotate();
    assert_eq!(b.rotation, 0);
}

#[test]
fn block_moves_and_resets() {
    let mut b = Block::new(BlockKind::O);
    b.move_left();
    b.move_down();
    b.move_down();
    assert_eq!((b.x, b.y), (3, 0));
    b.move_right();
    b.move_right();
    assert_eq!(b.x, 5);
    b.rotate();
    b.reset();
    assert_eq!(b, Block::new(BlockKind::O));
}

#[test]
fn new_board_is_empty() {
    let b = Board::new();
    let g = grid(&b);
    assert_eq!(g.len(), BOARD_HEIGHT);
    assert!(g.iter().all(|r| r.len() == BOARD_WIDTH && r.iter().all(|c| c.is_none())));
    assert_eq!(b.get_cell(0, 0), Some(Cell::Empty));
    assert_eq!(b.get_cell(BOARD_HEIGHT, 0), None);
    assert_eq!(b.get_cell(0, BOARD_WIDTH), None);
}

#[test]
fn cell_option_conversions() {
    assert_eq!(Cell::Empty.to_option(), None);
    assert_eq!(Cell::Filled(3).to_option(), Some(3));
    assert_eq!(Cell::from_option(None), Cell::Empty);
    assert_eq!(Cell::from_option(Some(5)), Cell::Filled(5));
}

#[test]
fn network_round_trip_and_partial_update() {
    let b = board_from(&[(19, full_row(1)), (10, vec![Some(2), None, Some(3)])]);
    let g = grid(&b);
    assert_eq!(g[19], full_row(1));
    assert_eq!(g[10][0], Some(2));
    assert_eq!(g[10][2], Some(3));
    let mut c = b.clone();
    c.update_from_network(vec![vec![Some(9)]]);
    assert_eq!(c.get_cell(0, 0), Some(Cell::Filled(9)));
    assert_eq!(grid(&c)[19], full_row(1));
}

#[test]
fn valid_position_checks_walls_floor_and_cells() {
    let b = board_from(&[(19, full_row(1))]);
    let mut p = Block::new(BlockKind::O);
    assert!(b.is_valid_position(&p));
    p.y = 18;
    assert!(b.is_valid_position(&p));
    p.y = 19;
    assert!(!b.is_valid_position(&p));
    p.y = 5;
    p.x = -1;
    assert!(!b.is_valid_position(&p));
    p.x = 9;
    assert!(!b.is_valid_position(&p));
    p.x = 8;
    assert!(b.is_valid_position(&p));
}

#[test]
fn place_block_writes_colour() {
    let mut b = Board::new();
    let mut p = Block::new(BlockKind::T);
    p.y = 19;
    assert!(b.place_block(&p));
    assert_eq!(b.get_cell(19, 4), Some(Cell::Filled(5)));
    assert_eq!(b.get_cell(18, 4), Some(Cell::Filled(5)));
    assert_eq!(b.get_cell(19, 3), Some(Cell::Filled(5)));
    assert_eq!(b.get_cell(19, 5), Some(Cell::Filled(5)));
    assert!(!b.place_block(&p));
}

#[test]
fn place_block_above_board_fails() {
    let mut b = Board::new();
    let p = Block::new(BlockKind::I);
    assert!(!b.place_block(&p));
    assert_eq!(grid(&b), grid(&Board::new()));
}

#[test]
fn clear_lines_removes_full_rows_and_drops_the_rest() {
    let mut row = vec![Some(4); BOARD_WIDTH];
    row[3] = None;
    let mut b = board_from(&[(17, full_row(1)), (18, row.clone()), (19, full_row(2)), (5, row.clone())]);
    assert_eq!(b.clear_lines(), 2);
    let g = grid(&b);
    assert_eq!(g[19], row);
    assert_eq!(g[7], row);
    assert!(g[18].iter().all(|c| c.is_none()));
    assert!(g[0].iter().all(|c| c.is_none()));
    assert_eq!(b.clear_lines(), 0);
}

#[test]
fn clear_lines_on_full_board() {
    let rows: Vec<(usize, Vec<Option<i32>>)> = (0..BOARD_HEIGHT).map(|y| (y, full_row(1))).collect();
    let mut b = board_from(&rows);
    assert_eq!(b.clear_lines(), BOARD_HEIGHT as u32);
    assert_eq!(grid(&b), grid(&Board::new()));
}

#[test]
fn garbage_line_enters_at_row_zero() {
    let mut b = board_from(&[(19, full_row(1)), (0, full_row(3))]);
    b.add_garbage_line(4);
    let g = grid(&b);
    for x in 0..BOARD_WIDTH {
        assert_eq!(g[0][x], if x == 4 { None } else { Some(8) });
    }
    assert_eq!(g[1], full_row(3));
    assert!(g[19].iter().all(|c| c.is_none()));
}

#[test]
fn garbage_lines_have_one_hole_each() {
    let mut b = board_from(&[(0, full_row(3))]);
    b.add_garbage_lines(3);
    let g = grid(&b);
    for y in 0..3 {
        assert_eq!(g[y].iter().filter(|c| c.is_none()).count(), 1);
        assert_eq!(g[y].iter().filter(|c| **c == Some(8)).count(), BOARD_WIDTH - 1);
    }
    assert_eq!(g[3], full_row(3));
    let before = grid(&b);
    b.add_garbage_lines(0);
    b.add_garbage_lines(-2);
    assert_eq!(grid(&b), before);
}
