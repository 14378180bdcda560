//! Mine placement and hint numbering, checked both on freshly seeded random
//! boards and on hand-built deterministic ones.

use minesweeper::board::Board;
use minesweeper::cell::{Cell, CellContent};
use minesweeper::placement::{initialize_free_cells, place_mines, place_numbers};
use minesweeper::screen::CellPos;
use minesweeper::session::Session;
use minesweeper::settings::Settings;

fn count_mines(b: &Board) -> usize {
    b.cells.iter().filter(|c| matches!(c.content, CellContent::Mine)).count()
}

fn is_mine(b: &Board, y: usize, x: usize) -> bool {
    matches!(b.cells[y * b.width + x].content, CellContent::Mine)
}

/// Recomputes a cell's hint from scratch: the mines among its neighbours.
fn neighbour_mines(b: &Board, y: usize, x: usize) -> u8 {
    let mut n = 0;
    for dy in -1i64..=1 {
        for dx in -1i64..=1 {
            if dy == 0 && dx == 0 {
                continue;
            }
            let ny = y as i64 + dy;
            let nx = x as i64 + dx;
            if ny >= 0 && nx >= 0 && (ny as usize) < b.height && (nx as usize) < b.width {
                if is_mine(b, ny as usize, nx as usize) {
                    n += 1;
                }
            }
        }
    }
    n
}

#[test]
fn first_click_zone_is_never_mined() {
    // Mine placement is random, so run a batch of fresh boards.
    for _ in 0..50 {
        let settings = Settings::default();
        let first = CellPos { x: 4, y: 4 };
        let s = Session::new(&settings, first);
        for dy in -1i64..=1 {
            for dx in -1i64..=1 {
                let y = (4 + dy) as usize;
                let x = (4 + dx) as usize;
                assert!(!is_mine(&s.board, y, x));
            }
        }
    }
}

#[test]
fn exactly_the_configured_mines_are_placed() {
    for _ in 0..50 {
        let settings = Settings::default();
        let s = Session::new(&settings, CellPos { x: 0, y: 0 });
        assert_eq!(count_mines(&s.board), 10);
    }
}

#[test]
fn every_hint_equals_its_recomputed_neighbour_count() {
    for _ in 0..20 {
        let settings = Settings::default();
        let s = Session::new(&settings, CellPos { x: 3, y: 5 });
        for y in 0..8 {
            for x in 0..8 {
                match s.board.cells[y * 8 + x].content {
                    CellContent::Mine => {}
                    CellContent::Empty(n) => {
                        assert_eq!(n, neighbour_mines(&s.board, y, x));
                    }
                }
            }
        }
    }
}

#[test]
fn placement_saturates_when_the_safe_zone_eats_the_board() {
    // On a 2 by 2 board the safe zone around any click covers every cell,
    // so no cell is eligible and no mine can be placed.
    let settings = Settings { mines: 1, width: 2, height: 2, ..Settings::default() };
    let mut board = Board::new(2, 2);
    place_mines(&mut board, &settings, CellPos { x: 0, y: 0 });
    assert_eq!(count_mines(&board), 0);
}

#[test]
fn placement_fills_every_eligible_cell_when_asked_for_more() {
    // A 5 by 1 strip clicked at its left end: cells 0 and 1 are safe, the
    // other three take all the mines the configuration can actually fit.
    let settings = Settings { mines: 4, width: 5, height: 1, ..Settings::default() };
    let mut board = Board::new(5, 1);
    place_mines(&mut board, &settings, CellPos { x: 0, y: 0 });
    assert_eq!(count_mines(&board), 3);
    assert!(!is_mine(&board, 0, 0));
    assert!(!is_mine(&board, 0, 1));
    assert!(is_mine(&board, 0, 2));
    assert!(is_mine(&board, 0, 3));
    assert!(is_mine(&board, 0, 4));
}

#[test]
fn numbering_matches_a_known_layout() {
    // 3 by 3 with mines in two opposite corners.
    let mut board = Board::new(3, 3);
    let c = board.get(0, 0);
    board.set(0, 0, Cell { content: CellContent::Mine, ..c });
    let c = board.get(2, 2);
    board.set(2, 2, Cell { content: CellContent::Mine, ..c });
    place_numbers(&mut board);
    let contents: Vec<CellContent> = board.cells.iter().map(|c| c.content).collect();
    assert_eq!(
        contents,
        vec![
            CellContent::Mine,
            CellContent::Empty(1),
            CellContent::Empty(0),
            CellContent::Empty(1),
            CellContent::Empty(2),
            CellContent::Empty(1),
            CellContent::Empty(0),
            CellContent::Empty(1),
            CellContent::Mine,
        ]
    );
}

#[test]
fn free_cells_are_exactly_the_safe_cells_in_row_major_order() {
    let mut board = Board::new(3, 2);
    let c = board.get(0, 1);
    board.set(0, 1, Cell { content: CellContent::Mine, ..c });
    let c = board.get(1, 2);
    board.set(1, 2, Cell { content: CellContent::Mine, ..c });
    let free = initialize_free_cells(&board);
    assert_eq!(free, vec![(0, 0), (0, 2), (1, 0), (1, 1)]);
}
