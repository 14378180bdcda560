//! Screen-geometry and glyph-selection behaviour on concrete values.

use minesweeper::cell::{glyph_key, Cell, CellContent, GlyphKey};
use minesweeper::board::{get_around_cell, get_around_cell_coord_only, Board};
use minesweeper::screen::{cell_screen_position, center_board, string_position, CellPos, MousePos};
use minesweeper::settings::{InputType, Settings};

fn base_settings() -> Settings {
    Settings::default()
}

#[test]
fn default_settings_are_the_easy_game() {
    let s = Settings::default();
    assert_eq!(s.mines, 10);
    assert_eq!(s.width, 8);
    assert_eq!(s.height, 8);
    assert!(matches!(s.input_type, InputType::Mouse));
    assert!(!s.bordered);
    assert!(s.centered);
}

#[test]
fn mouse_to_cell_divides_by_glyph_width_and_clamps() {
    let mut s = base_settings();
    s.board_x_pos = 10;
    s.board_y_pos = 2;
    // A screen position inside the board maps to its cell.
    let m = MousePos { x: 17, y: 5 };
    let c = m.convert(&s);
    assert_eq!(c.x, 2); // (17 - 10) / 3
    assert_eq!(c.y, 3); // 5 - 2
    // Left and above the board clamps to the first cell.
    let m = MousePos { x: 3, y: 0 };
    let c = m.convert(&s);
    assert_eq!(c.x, 0);
    assert_eq!(c.y, 0);
    // Far right and below clamps to the last cell.
    let m = MousePos { x: 500, y: 400 };
    let c = m.convert(&s);
    assert_eq!(c.x, 7);
    assert_eq!(c.y, 7);
}

#[test]
fn cell_to_screen_scales_columns_and_adds_the_board_offset() {
    let mut s = base_settings();
    s.board_x_pos = 4;
    s.board_y_pos = 9;
    let c = CellPos { x: 3, y: 5 };
    let m = c.convert(&s);
    assert_eq!(m.x, 13); // 3 * 3 + 4
    assert_eq!(m.y, 14); // 5 + 9
    // The two conversions are inverse on in-bounds cells.
    let back = m.convert(&s);
    assert_eq!((back.x, back.y), (c.x, c.y));
}

#[test]
fn centering_splits_the_leftover_space() {
    let mut s = base_settings();
    // 8 cells of 3 characters on an 80 by 24 screen.
    center_board(&mut s, (80, 24));
    assert_eq!(s.board_x_pos, 28); // 80/2 - 24/2
    assert_eq!(s.board_y_pos, 8); // 24/2 - 8/2
    // A bordered board is pulled one character in.
    s.bordered = true;
    center_board(&mut s, (80, 24));
    assert_eq!(s.board_x_pos, 27);
    assert_eq!(s.board_y_pos, 7);
    // Without centering the board sits at the origin, or one in when bordered.
    s.centered = false;
    center_board(&mut s, (80, 24));
    assert_eq!(s.board_x_pos, 1);
    assert_eq!(s.board_y_pos, 1);
    s.bordered = false;
    center_board(&mut s, (80, 24));
    assert_eq!(s.board_x_pos, 0);
    assert_eq!(s.board_y_pos, 0);
    // A terminal narrower than the board clamps at the origin.
    s.centered = true;
    center_board(&mut s, (10, 4));
    assert_eq!(s.board_x_pos, 0);
    assert_eq!(s.board_y_pos, 0);
}

#[test]
fn cell_screen_position_skips_offscreen_cells() {
    let mut s = base_settings();
    s.board_x_pos = 2;
    s.board_y_pos = 1;
    let on = cell_screen_position(CellPos { x: 1, y: 2 }, &s, (80, 24));
    assert_eq!(on, Some((5, 3)));
    let off = cell_screen_position(CellPos { x: 7, y: 0 }, &s, (20, 24));
    assert_eq!(off, None);
}

#[test]
fn string_position_centres_text_and_claims_a_row() {
    let mut s = base_settings();
    s.board_x_pos = 28;
    s.board_y_pos = 8;
    s.showing_board = true;
    let (x, y) = string_position(&mut s, 10);
    // 28 - 10/2 + 24/2 under a centred 8-cell board.
    assert_eq!(x, 35);
    // Below the board: 0 + 8 + 8.
    assert_eq!(y, 16);
    assert_eq!(s.str_y_pos, 1);
    let (_, y2) = string_position(&mut s, 10);
    assert_eq!(y2, 17);
    assert_eq!(s.str_y_pos, 2);
}

#[test]
fn glyphs_follow_flag_then_cover_then_content() {
    let mut c = Cell { hidden: true, content: CellContent::Empty(3), flagged: false, selected: false };
    assert_eq!(glyph_key(&c), GlyphKey::Covered);
    c.flagged = true;
    assert_eq!(glyph_key(&c), GlyphKey::Flag);
    c.flagged = false;
    c.hidden = false;
    assert_eq!(glyph_key(&c), GlyphKey::Digit(3));
    c.content = CellContent::Empty(0);
    assert_eq!(glyph_key(&c), GlyphKey::Blank);
    c.content = CellContent::Mine;
    assert_eq!(glyph_key(&c), GlyphKey::MineGlyph);
}

#[test]
fn around_lists_cover_corners_edges_and_the_middle() {
    let b = Board::new(4, 3);
    let corner = get_around_cell_coord_only([0, 0], &b);
    assert_eq!(corner, vec![(0, 0), (0, 1), (1, 0), (1, 1)]);
    let edge = get_around_cell_coord_only([0, 2], &b);
    assert_eq!(edge, vec![(0, 1), (0, 2), (0, 3), (1, 1), (1, 2), (1, 3)]);
    let middle = get_around_cell_coord_only([1, 2], &b);
    assert_eq!(
        middle,
        vec![(0, 1), (0, 2), (0, 3), (1, 1), (1, 2), (1, 3), (2, 1), (2, 2), (2, 3)]
    );
}

#[test]
fn around_cells_carry_their_contents() {
    let mut b = Board::new(2, 2);
    let c = b.get(1, 1);
    b.set(1, 1, Cell { content: CellContent::Mine, ..c });
    let around = get_around_cell([0, 0], &b);
    assert_eq!(around.len(), 4);
    assert_eq!(around[3].0, CellContent::Mine);
    assert_eq!((around[3].1, around[3].2), (1, 1));
    assert_eq!(around[0].0, CellContent::Empty(0));
}
