//! End-to-end session behaviour on deterministic boards: flood fill, win
//! and loss transitions, flag immunity, and the selection-loop step.

use minesweeper::board::Board;
use minesweeper::cell::{Cell, CellContent};
use minesweeper::flood::deobfuscate_board;
use minesweeper::placement::{initialize_free_cells, place_numbers};
use minesweeper::screen::{CellPos, MousePos};
use minesweeper::selection::{selection_step, InputAction, LoopCommand};
use minesweeper::session::{event, flag, reveal_board, won, Choice, Click, GameState, Session};
use minesweeper::settings::{InputType, Settings};

/// A fully numbered hidden board with mines at the given positions.
fn make_board(width: usize, height: usize, mines: &[(usize, usize)]) -> Board {
    let mut board = Board::new(width, height);
    for &(y, x) in mines {
        let c = board.get(y, x);
        board.set(y, x, Cell { content: CellContent::Mine, ..c });
    }
    place_numbers(&mut board);
    board
}

fn make_session(width: usize, height: usize, mines: &[(usize, usize)]) -> Session {
    let board = make_board(width, height, mines);
    let hidden_cells = initialize_free_cells(&board);
    Session { board, hidden_cells, state: GameState::Playing }
}

/// Ten mines sealing off the top of an 8 by 8 board: a full wall on row 2
/// plus two corners of row 0. Cell (4, 4) has no adjacent mines.
fn walled_mines() -> Vec<(usize, usize)> {
    let mut m: Vec<(usize, usize)> = (0..8).map(|x| (2, x)).collect();
    m.push((0, 0));
    m.push((0, 7));
    m
}

fn hidden_count(b: &Board) -> usize {
    b.cells.iter().filter(|c| c.hidden).count()
}

#[test]
fn flood_opens_the_connected_region_and_its_border() {
    let mut s = make_session(8, 8, &walled_mines());
    let before = s.hidden_cells.len();
    assert_eq!(before, 54);
    let hidden_before = hidden_count(&s.board);
    let r = s.click(CellPos { x: 4, y: 4 });
    assert_eq!(r, Click::Fine);
    assert_eq!(s.state, GameState::Playing);
    // Rows 4 through 7 are the zero region, row 3 its hinted border: 40 cells.
    let opened = hidden_before - hidden_count(&s.board);
    assert_eq!(opened, 40);
    // The remaining-safe set shrank by exactly the number of cells opened.
    assert_eq!(s.hidden_cells.len(), before - opened);
    for y in 3..8 {
        for x in 0..8 {
            assert!(!s.board.cells[y * 8 + x].hidden);
        }
    }
    // The pocket above the wall stays closed.
    assert!(s.board.cells[1 * 8 + 3].hidden);
    assert!(s.board.cells[0 * 8 + 4].hidden);
}

#[test]
fn flood_reveal_is_idempotent() {
    let mut board = make_board(8, 8, &walled_mines());
    let mut hidden_cells = initialize_free_cells(&board);
    deobfuscate_board(&mut board, CellPos { x: 4, y: 4 }, &mut hidden_cells);
    let cells_after: Vec<Cell> = board.cells.clone();
    let hc_after = hidden_cells.clone();
    // Running the same reveal again on the already-open region changes
    // nothing: not one cell, not one pending position.
    deobfuscate_board(&mut board, CellPos { x: 4, y: 4 }, &mut hidden_cells);
    assert_eq!(board.cells, cells_after);
    assert_eq!(hidden_cells, hc_after);
}

#[test]
fn flood_from_a_hinted_cell_changes_nothing() {
    // The walk is seeded only by a zero-hint cell; launched on a bordering
    // hinted cell it opens nothing at all.
    let mut board = make_board(8, 8, &walled_mines());
    let mut hidden_cells = initialize_free_cells(&board);
    let cells_before = board.cells.clone();
    let hc_before = hidden_cells.clone();
    deobfuscate_board(&mut board, CellPos { x: 0, y: 3 }, &mut hidden_cells);
    assert_eq!(board.cells, cells_before);
    assert_eq!(hidden_cells, hc_before);
}

#[test]
fn revealing_a_mine_loses_even_on_the_first_click() {
    let mut s = make_session(8, 8, &walled_mines());
    let r = s.click(CellPos { x: 0, y: 2 });
    assert_eq!(r, Click::Dead);
    assert_eq!(s.state, GameState::Lost);
    // The end-state normalization uncovers and deselects everything.
    assert_eq!(hidden_count(&s.board), 0);
    assert!(s.board.cells.iter().all(|c| !c.selected));
}

#[test]
fn a_flagged_cell_swallows_the_reveal() {
    let mut s = make_session(8, 8, &walled_mines());
    s.toggle_flag(CellPos { x: 0, y: 0 });
    let before_cells = s.board.cells.clone();
    let before_hc = s.hidden_cells.clone();
    let r = s.click(CellPos { x: 0, y: 0 });
    assert_eq!(r, Click::Fine);
    assert_eq!(s.state, GameState::Playing);
    assert_eq!(s.board.cells, before_cells);
    assert_eq!(s.hidden_cells, before_hc);
    let c = s.board.cells[0];
    assert!(c.hidden && c.flagged);
}

#[test]
fn flagging_a_revealed_cell_is_a_no_op() {
    let mut board = make_board(2, 2, &[(0, 0)]);
    let c = board.get(1, 1);
    board.set(1, 1, Cell { hidden: false, ..c });
    let before = board.cells.clone();
    flag(&mut board, CellPos { x: 1, y: 1 });
    assert_eq!(board.cells, before);
    // A hidden cell takes the flag, and toggling again removes it.
    flag(&mut board, CellPos { x: 0, y: 1 });
    assert!(board.cells[2].flagged);
    flag(&mut board, CellPos { x: 0, y: 1 });
    assert!(!board.cells[2].flagged);
}

#[test]
fn the_last_safe_cell_wins_and_only_then_shows_the_mine() {
    let mut s = make_session(2, 2, &[(0, 0)]);
    assert_eq!(s.hidden_cells.len(), 3);
    assert_eq!(s.click(CellPos { x: 1, y: 0 }), Click::Fine);
    assert_eq!(s.click(CellPos { x: 0, y: 1 }), Click::Fine);
    assert_eq!(s.state, GameState::Playing);
    // The mine may stay hidden while the game is still going.
    assert!(s.board.cells[0].hidden);
    assert!(!won(&s.hidden_cells));
    assert_eq!(s.click(CellPos { x: 1, y: 1 }), Click::Fine);
    // No safe cell remains, so the session is won and the end-state
    // normalization has forced the mine visible.
    assert!(won(&s.hidden_cells));
    assert_eq!(s.state, GameState::Won);
    assert!(!s.board.cells[0].hidden);
}

#[test]
fn terminal_sessions_ignore_further_input() {
    let mut s = make_session(2, 2, &[(0, 0)]);
    s.click(CellPos { x: 0, y: 0 });
    assert_eq!(s.state, GameState::Lost);
    let cells = s.board.cells.clone();
    assert_eq!(s.click(CellPos { x: 1, y: 1 }), Click::Fine);
    s.toggle_flag(CellPos { x: 1, y: 1 });
    assert_eq!(s.state, GameState::Lost);
    assert_eq!(s.board.cells, cells);
}

#[test]
fn a_positive_hint_reveals_just_itself() {
    let mut board = make_board(8, 8, &walled_mines());
    let mut hidden_cells = initialize_free_cells(&board);
    let before = hidden_cells.len();
    // (3, 0) borders the mine wall, so its hint is positive.
    let original = hidden_cells.clone();
    let r = event(CellPos { x: 0, y: 3 }, &mut board, &mut hidden_cells);
    assert_eq!(r, Click::Fine);
    assert_eq!(hidden_cells.len(), before - 1);
    assert!(!board.cells[3 * 8].hidden);
    assert!(board.cells[4 * 8].hidden);
    // Exactly the revealed position leaves the list; the rest keep their order.
    let expected: Vec<(usize, usize)> =
        original.into_iter().filter(|q| *q != (3, 0)).collect();
    assert_eq!(hidden_cells, expected);
}

#[test]
fn reveal_board_reports_exactly_the_cells_that_changed() {
    let mut board = make_board(2, 2, &[(0, 0)]);
    let c = board.get(0, 1);
    board.set(0, 1, Cell { hidden: false, ..c });
    let c = board.get(1, 0);
    board.set(1, 0, Cell { selected: true, ..c });
    let changed = reveal_board(&mut board);
    // (0, 1) was already visible and unselected; the other three change.
    assert_eq!(changed.len(), 3);
    assert!(changed.contains(&(0, 0)));
    assert!(changed.contains(&(1, 0)));
    assert!(changed.contains(&(1, 1)));
    assert!(board.cells.iter().all(|c| !c.hidden && !c.selected));
}

fn keyboard_settings() -> Settings {
    Settings { input_type: InputType::Keyboard, ..Settings::default() }
}

/// A small playing board with the cursor highlighted at the given cell.
fn board_with_cursor(cursor: CellPos) -> Board {
    let mut board = make_board(8, 8, &[]);
    let c = board.get(cursor.y as usize, cursor.x as usize);
    board.set(cursor.y as usize, cursor.x as usize, Cell { selected: true, ..c });
    board
}

#[test]
fn cursor_moves_clamp_to_the_board() {
    let mut settings = keyboard_settings();
    let cursor = CellPos { x: 0, y: 0 };
    let mut board = board_with_cursor(cursor);
    let (c2, cmd) = selection_step(&mut board, cursor, InputAction::MoveLeft, &mut settings);
    assert_eq!((c2.x, c2.y), (0, 0));
    assert_eq!(cmd, LoopCommand::Proceed);
    let (c3, _) = selection_step(&mut board, c2, InputAction::MoveRight, &mut settings);
    assert_eq!((c3.x, c3.y), (1, 0));
    // The highlight follows the cursor, and only one cell carries it.
    assert!(board.cells[1].selected);
    assert!(!board.cells[0].selected);
    assert_eq!(board.cells.iter().filter(|c| c.selected).count(), 1);
    let (c4, _) = selection_step(&mut board, c3, InputAction::MoveDown, &mut settings);
    assert_eq!((c4.x, c4.y), (1, 1));
}

#[test]
fn pointer_movement_tracks_the_mouse_in_mouse_mode() {
    let mut settings = Settings::default();
    settings.board_x_pos = 6;
    settings.board_y_pos = 1;
    let cursor = CellPos { x: 0, y: 0 };
    let mut board = board_with_cursor(cursor);
    let m = MousePos { x: 13, y: 4 };
    let (c2, cmd) = selection_step(&mut board, cursor, InputAction::PointerMove(m), &mut settings);
    assert_eq!((c2.x, c2.y), (2, 3));
    assert_eq!(cmd, LoopCommand::Proceed);
    assert!(board.cells[(3 * 8 + 2) as usize].selected);
    // In keyboard mode the same event is ignored.
    let mut kb = keyboard_settings();
    let mut board2 = board_with_cursor(cursor);
    let (c3, _) = selection_step(&mut board2, cursor, InputAction::PointerMove(m), &mut kb);
    assert_eq!((c3.x, c3.y), (0, 0));
}

#[test]
fn selecting_with_the_configured_device_finishes_the_loop() {
    let mut settings = Settings::default();
    let cursor = CellPos { x: 3, y: 3 };
    let mut board = board_with_cursor(cursor);
    let (_, cmd) = selection_step(&mut board, cursor, InputAction::PointerSelect, &mut settings);
    assert_eq!(cmd, LoopCommand::Finish(Choice::Click));
    // The other device's select is ignored in mouse mode.
    let (_, cmd) = selection_step(&mut board, cursor, InputAction::KeySelect, &mut settings);
    assert_eq!(cmd, LoopCommand::Proceed);
    let (_, cmd) = selection_step(&mut board, cursor, InputAction::ExitToMenu, &mut settings);
    assert_eq!(cmd, LoopCommand::Finish(Choice::Exit));
}

#[test]
fn panning_shifts_the_board_offset_and_stops_at_the_origin() {
    let mut settings = Settings::default();
    settings.board_x_pos = 1;
    settings.board_y_pos = 0;
    let cursor = CellPos { x: 3, y: 3 };
    let mut board = board_with_cursor(cursor);
    let (_, _) = selection_step(&mut board, cursor, InputAction::PanLeft, &mut settings);
    assert_eq!(settings.board_x_pos, 0);
    let (_, _) = selection_step(&mut board, cursor, InputAction::PanLeft, &mut settings);
    assert_eq!(settings.board_x_pos, 0);
    let (_, _) = selection_step(&mut board, cursor, InputAction::PanDown, &mut settings);
    assert_eq!(settings.board_y_pos, 1);
    let (_, _) = selection_step(&mut board, cursor, InputAction::PanUp, &mut settings);
    assert_eq!(settings.board_y_pos, 0);
}

#[test]
fn the_flag_action_flags_the_cursor_cell() {
    let mut settings = keyboard_settings();
    let cursor = CellPos { x: 2, y: 5 };
    let mut board = board_with_cursor(cursor);
    let (c2, cmd) = selection_step(&mut board, cursor, InputAction::ToggleFlag, &mut settings);
    assert_eq!((c2.x, c2.y), (2, 5));
    assert_eq!(cmd, LoopCommand::Proceed);
    assert!(board.cells[5 * 8 + 2].flagged);
}
