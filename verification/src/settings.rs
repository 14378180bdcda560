//! The per-session configuration bundle, produced by the menu system and
//! only read by the engine, plus the screen-placement fields the renderer
//! keeps alongside it.

use vstd::prelude::*;

verus! {

/// Which device drives the cursor.
#[derive(Clone, Copy, Debug, PartialEq, Eq, Structural)]
pub enum InputType {
    Mouse,
    Keyboard,
}

/// Immutable-per-session game configuration together with the mutable
/// screen-placement state (board offset, next free text row, whether a board
/// is currently on screen).
#[derive(Clone, Copy, Debug)]
pub struct Settings {
    pub mines: i32,
    pub width: i32,
    pub height: i32,
    pub input_type: InputType,
    pub bordered: bool,
    pub centered: bool,
    pub board_x_pos: u32,
    pub board_y_pos: u32,
    pub str_y_pos: u32,
    pub showing_board: bool,
}

impl Settings {
    /// Dimensions are positive and small, the mine count fits the board with
    /// at least one cell to spare, and the screen offsets are bounded, so
    /// that all coordinate arithmetic fits its machine types.
    pub open spec fn wf(self) -> bool {
        &&& 1 <= self.width <= 0x1000
        &&& 1 <= self.height <= 0x1000
        &&& 0 <= self.mines
        &&& (self.mines as int) < (self.width as int) * (self.height as int)
        &&& self.board_x_pos <= 0x10000
        &&& self.board_y_pos <= 0x10000
        &&& self.str_y_pos <= 0x10000
    }
}

impl Default for Settings {
    /// The out-of-the-box game: an 8 by 8 board with 10 mines, mouse input,
    /// centred and unbordered, drawn at the screen origin.
    fn default() -> (s: Settings)
        ensures
            s == (Settings {
                mines: 10,
                width: 8,
                height: 8,
                input_type: InputType::Mouse,
                bordered: false,
                centered: true,
                board_x_pos: 0,
                board_y_pos: 0,
                str_y_pos: 0,
                showing_board: false,
            }),
            s.wf(),
    {
        Settings {
            mines: 10,
            width: 8,
            height: 8,
            input_type: InputType::Mouse,
            bordered: false,
            centered: true,
            board_x_pos: 0,
            board_y_pos: 0,
            str_y_pos: 0,
            showing_board: false,
        }
    }
}

} // verus!
