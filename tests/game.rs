use tetris::block::{Block, BlockKind};
use tetris::board::{Board, Cell, BOARD_HEIGHT, BOARD_WIDTH};
use tetris::game::{Game, GameState, Score};
use tetris::message::GameMessage;

fn game_with(kind: BlockKind) -> Game {
    let mut g = Game::new();
    g.current_block = Block::new(kind);
    g.next_block = Block::new(BlockKind::O);
    g
}

fn nearly_full_bottom(hole: usize) -> Board {
    let mut cells = vec![vec![None; BOARD_WIDTH]; BOARD_HEIGHT];
    for x in 0..BOARD_WIDTH {
        if x != hole {
            cells[BOARD_HEIGHT - 1][x] = Some(1);
        }
    }
    let mut b = Board::new();
    b.update_from_network(cells);
    b
}

#[test]
fn new_game_defaults() {
    let g = Game::new();
    assert_eq!(g.state, GameState::Playing);
    assert_eq!(g.score, Score { points: 0, lines: 0, level: 1 });
    assert_eq!(g.score, Score::default());
    assert_eq!((g.current_block.x, g.current_block.y), (4, -2));
    assert!(g.player_id.is_none());
    assert!(g.other_players.is_empty());
}

#[test]
fn moves_stop_at_walls() {
    let mut g = game_with(BlockKind::O);
    let mut steps = 0;
    while g.move_current_block(-1, 0) {
        steps += 1;
    }
    assert_eq!(steps, 4);
    assert_eq!(g.current_block.x, 0);
    assert!(!g.move_current_block(-1, 0));
    assert!(g.move_current_block(1, 1));
    assert_eq!((g.current_block.x, g.current_block.y), (1, -1));
}

#[test]
fn rotation_kicks_off_the_wall() {
    let mut g = game_with(BlockKind::I);
    g.current_block.rotation = 1;
    g.current_block.y = 5;
    while g.move_current_block(1, 0) {}
    assert_eq!(g.current_block.x, 9);
    assert!(g.rotate_current_block());
    assert_eq!(g.current_block.rotation, 2);
    assert_eq!(g.current_block.x, 8);
}

#[test]
fn hard_drop_lands_and_clears() {
    let mut g = game_with(BlockKind::I);
    g.board = nearly_full_bottom(9);
    g.current_block.rotation = 1;
    while g.move_current_block(1, 0) {}
    assert!(g.hard_drop());
    assert_eq!(g.score, Score { points: 100, lines: 1, level: 1 });
    assert!(g.lines_just_cleared);
    assert_eq!(g.board.get_cell(BOARD_HEIGHT - 1, 9), Some(Cell::Filled(0)));
    assert_eq!(g.board.get_cell(BOARD_HEIGHT - 1, 0), Some(Cell::Empty));
    assert_eq!(g.current_block.kind, BlockKind::O);
    assert_eq!((g.next_block.x, g.next_block.y, g.next_block.rotation), (4, -2, 0));
}

#[test]
fn lock_above_board_ends_game() {
    let mut g = game_with(BlockKind::I);
    assert!(!g.lock_current_block());
    assert_eq!(g.state, GameState::GameOver);
}

#[test]
fn update_score_table_and_levels() {
    let mut g = Game::new();
    g.update_score(4);
    assert_eq!(g.score, Score { points: 800, lines: 4, level: 1 });
    g.update_score(3);
    assert_eq!(g.score, Score { points: 1300, lines: 7, level: 1 });
    g.update_score(2);
    assert_eq!(g.score, Score { points: 1600, lines: 9, level: 1 });
    g.update_score(1);
    assert_eq!(g.score, Score { points: 1700, lines: 10, level: 2 });
    g.update_score(2);
    assert_eq!(g.score, Score { points: 2300, lines: 12, level: 2 });
    g.update_score(5);
    assert_eq!(g.score, Score { points: 2300, lines: 17, level: 2 });
}

#[test]
fn step_down_moves_then_locks() {
    let mut g = game_with(BlockKind::O);
    g.step_down();
    assert_eq!(g.current_block.y, -1);
    for _ in 0..20 {
        g.step_down();
    }
    assert_eq!(g.current_block.y, BOARD_HEIGHT as i32 - 1);
    g.step_down();
    assert_eq!(g.board.get_cell(BOARD_HEIGHT - 1, 4), Some(Cell::Filled(3)));
    assert_eq!(g.current_block.kind, BlockKind::O);
    assert_eq!(g.current_block.y, -2);
}

#[test]
fn pause_toggles_but_game_over_stays() {
    let mut g = Game::new();
    g.toggle_pause();
    assert_eq!(g.state, GameState::Paused);
    g.toggle_pause();
    assert_eq!(g.state, GameState::Playing);
    g.state = GameState::GameOver;
    g.toggle_pause();
    assert_eq!(g.state, GameState::GameOver);
}

#[test]
fn start_game_keeps_identity_and_peers() {
    let mut g = Game::new();
    g.apply_message(GameMessage::Join { player_id: "me".to_string() });
    g.apply_message(GameMessage::GameState { player_id: "peer".to_string(), score: 5 });
    g.update_score(2);
    g.state = GameState::GameOver;
    g.start_game();
    assert_eq!(g.state, GameState::Playing);
    assert_eq!(g.score, Score::default());
    assert_eq!(g.player_id.as_deref(), Some("me"));
    assert_eq!(g.other_players, vec![("peer".to_string(), 5)]);
}

#[test]
fn messages_update_roster_and_state() {
    let mut g = Game::new();
    g.apply_message(GameMessage::Join { player_id: "me".to_string() });
    assert_eq!(g.player_id.as_deref(), Some("me"));
    assert!(g.other_players.is_empty());
    g.apply_message(GameMessage::Join { player_id: "p2".to_string() });
    assert_eq!(g.other_players, vec![("p2".to_string(), 0)]);
    g.apply_message(GameMessage::GameState { player_id: "p2".to_string(), score: 40 });
    g.apply_message(GameMessage::GameState { player_id: "me".to_string(), score: 99 });
    assert_eq!(g.other_players, vec![("p2".to_string(), 40)]);
    g.apply_message(GameMessage::PlayerLeft { player_id: "p2".to_string() });
    assert!(g.other_players.is_empty());
    g.apply_message(GameMessage::GameOver { player_id: "p2".to_string() });
    assert_eq!(g.state, GameState::Playing);
    g.apply_message(GameMessage::GameOver { player_id: "me".to_string() });
    assert_eq!(g.state, GameState::GameOver);
}

#[test]
fn peer_line_clear_brings_garbage() {
    let mut g = Game::new();
    g.apply_message(GameMessage::Join { player_id: "me".to_string() });
    g.apply_message(GameMessage::LineCleared { player_id: "me".to_string(), count: 2 });
    assert_eq!(g.board.get_cell(0, 0), Some(Cell::Empty));
    g.apply_message(GameMessage::LineCleared { player_id: "p2".to_string(), count: 2 });
    for y in 0..2 {
        let holes = (0..BOARD_WIDTH).filter(|x| g.board.get_cell(y, *x) == Some(Cell::Empty)).count();
        assert_eq!(holes, 1);
    }
}

#[test]
fn outgoing_messages_carry_own_id() {
    let mut g = Game::new();
    assert_eq!(g.status_message(), None);
    assert_eq!(g.line_clear_message(2), None);
    g.apply_message(GameMessage::Join { player_id: "me".to_string() });
    g.update_score(1);
    assert_eq!(
        g.status_message(),
        Some(GameMessage::GameState { player_id: "me".to_string(), score: 100 })
    );
    assert_eq!(
        g.line_clear_message(2),
        Some(GameMessage::LineCleared { player_id: "me".to_string(), count: 2 })
    );
    assert_eq!(g.line_clear_message(0), None);
}

#[test]
fn game_clear_lines_notes_clears() {
    let mut g = Game::new();
    let mut cells = vec![vec![None; BOARD_WIDTH]; BOARD_HEIGHT];
    cells[BOARD_HEIGHT - 1] = vec![Some(2); BOARD_WIDTH];
    g.board.update_from_network(cells);
    assert_eq!(g.clear_lines(), 1);
    assert!(g.lines_just_cleared);
    assert_eq!(g.board.get_cell(BOARD_HEIGHT - 1, 0), Some(Cell::Empty));
}
