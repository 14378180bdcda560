//! Coordinate types and the arithmetic that places the board, its cells and
//! status text on the terminal. Board cells are three characters wide, so
//! cell and screen coordinates differ by the board offset and that factor.
//! The renderer performs the actual drawing; everything here is the
//! geometry it relies on.

use vstd::prelude::*;

use crate::settings::Settings;

verus! {

/// A position in screen characters (column `x`, row `y`).
#[derive(Clone, Copy, Debug, PartialEq, Eq, Structural)]
pub struct MousePos {
    pub x: i32,
    pub y: i32,
}

/// A position in board cells (column `x`, row `y`), distinct from screen
/// coordinates.
#[derive(Clone, Copy, Debug, PartialEq, Eq, Structural)]
pub struct CellPos {
    pub x: i32,
    pub y: i32,
}

/// `v` clamped into `[0, limit - 1]`.
pub open spec fn clamp_to(v: int, limit: int) -> int {
    if v <= 0 {
        0
    } else if v < limit - 1 {
        v
    } else {
        limit - 1
    }
}

/// The board column a screen column lands on: offset removed, divided by the
/// glyph width, clamped to the board.
pub open spec fn screen_to_cell_x(sx: int, board_x: int, width: int) -> int {
    if sx - board_x <= 0 {
        0
    } else {
        clamp_to((sx - board_x) / 3, width)
    }
}

impl MousePos {
    /// The board cell under a screen position, clamped to the board edges.
    pub fn convert(&self, settings: &Settings) -> (r: CellPos)
        requires
            settings.wf(),
            0 <= self.x <= 0xffff,
            0 <= self.y <= 0xffff,
        ensures
            r.x as int == screen_to_cell_x(
                self.x as int,
                settings.board_x_pos as int,
                settings.width as int,
            ),
            r.y as int == clamp_to(self.y - settings.board_y_pos, settings.height as int),
            0 <= r.x < settings.width,
            0 <= r.y < settings.height,
    {
        let bx = settings.board_x_pos as i32;
        let by = settings.board_y_pos as i32;
        let dx = self.x - bx;
        let x: i32 = if dx <= 0 {
            0
        } else {
            let q = ((dx as u32) / 3) as i32;
            if q < settings.width - 1 {
                q
            } else {
                settings.width - 1
            }
        };
        let dy = self.y - by;
        let y: i32 = if dy <= 0 {
            0
        } else if dy < settings.height - 1 {
            dy
        } else {
            settings.height - 1
        };
        CellPos { x, y }
    }
}

impl CellPos {
    /// The screen position of a cell: the column scaled by the
    /// three-character glyph width, then the board offset added to both
    /// coordinates — the inverse direction of `MousePos::convert`.
    pub fn convert(&self, settings: &Settings) -> (r: MousePos)
        requires
            settings.wf(),
            0 <= self.x < settings.width,
            0 <= self.y < settings.height,
        ensures
            r.x == 3 * self.x + settings.board_x_pos,
            r.y == self.y + settings.board_y_pos,
    {
        MousePos {
            x: 3 * self.x + settings.board_x_pos as i32,
            y: self.y + settings.board_y_pos as i32,
        }
    }
}

/// Where a cell is drawn, if on screen: column `3 * x` plus the board
/// offset, row `y` plus the board offset; nothing when the terminal is too
/// small to show it.
pub open spec fn spec_cell_screen_position(
    pos: CellPos,
    s: Settings,
    term_w: int,
    term_h: int,
) -> Option<(int, int)> {
    let sx = 3 * pos.x + s.board_x_pos;
    let sy = pos.y + s.board_y_pos;
    if sx >= term_w || sy >= term_h {
        None
    } else {
        Some((sx, sy))
    }
}

/// The screen position at which to draw a cell, or nothing when it falls
/// outside the terminal.
pub fn cell_screen_position(
    pos: CellPos,
    settings: &Settings,
    terminal_size: (i32, i32),
) -> (r: Option<(u16, u16)>)
    requires
        settings.wf(),
        0 <= pos.x < settings.width,
        0 <= pos.y < settings.height,
        0 <= terminal_size.0 <= 0xffff,
        0 <= terminal_size.1 <= 0xffff,
    ensures
        match r {
            Some(p) => spec_cell_screen_position(
                pos,
                *settings,
                terminal_size.0 as int,
                terminal_size.1 as int,
            ) == Some((p.0 as int, p.1 as int)),
            None => spec_cell_screen_position(
                pos,
                *settings,
                terminal_size.0 as int,
                terminal_size.1 as int,
            ) is None,
        },
{
    let sx: u32 = 3 * (pos.x as u32) + settings.board_x_pos;
    let sy: u32 = (pos.y as u32) + settings.board_y_pos;
    if sx >= terminal_size.0 as u32 || sy >= terminal_size.1 as u32 {
        None
    } else {
        Some((sx as u16, sy as u16))
    }
}

/// `max(v - 1, floor)` for the small non-negative values used below.
pub open spec fn back_one(v: int, floor: int) -> int {
    if v - 1 > floor {
        v - 1
    } else {
        floor
    }
}

/// The board offset that centres a `width`-cell board (three characters per
/// cell) on a `term_w`-wide screen, with a bordered board pulled in but
/// never onto the border row itself.
pub open spec fn spec_centered_board_x(s: Settings, term_w: int) -> int {
    let c = term_w / 2 - (s.width * 3) / 2;
    let c0 = if c > 0 {
        c
    } else {
        0
    };
    if s.bordered {
        back_one(c0, 1)
    } else {
        c0
    }
}

pub open spec fn spec_centered_board_y(s: Settings, term_h: int) -> int {
    let c = term_h / 2 - s.height / 2;
    let c0 = if c > 0 {
        c
    } else {
        0
    };
    if s.bordered {
        back_one(c0, 1)
    } else {
        c0
    }
}

pub open spec fn spec_board_x(s: Settings, term_w: int) -> int {
    if s.centered {
        spec_centered_board_x(s, term_w)
    } else if s.bordered {
        1
    } else {
        0
    }
}

pub open spec fn spec_board_y(s: Settings, term_h: int) -> int {
    if s.centered {
        spec_centered_board_y(s, term_h)
    } else if s.bordered {
        1
    } else {
        0
    }
}

/// Recomputes the board's screen offset for the current terminal size:
/// centred boards land in the middle of the screen (clamped at the origin),
/// others at the origin, and a border shifts the board one character in.
pub fn center_board(settings: &mut Settings, terminal_size: (i32, i32))
    requires
        old(settings).wf(),
        0 <= terminal_size.0 <= 0xffff,
        0 <= terminal_size.1 <= 0xffff,
    ensures
        *final(settings) == (Settings {
            board_x_pos: spec_board_x(*old(settings), terminal_size.0 as int) as u32,
            board_y_pos: spec_board_y(*old(settings), terminal_size.1 as int) as u32,
            ..*old(settings)
        }),
        final(settings).wf(),
{
    if settings.centered {
        let half_term_x: i32 = ((terminal_size.0 as u32) / 2) as i32;
        let half_board_x: i32 = (((settings.width as u32) * 3) / 2) as i32;
        let cx = half_term_x - half_board_x;
        let mut bx: i32 = if cx > 0 {
            cx
        } else {
            0
        };
        let half_term_y: i32 = ((terminal_size.1 as u32) / 2) as i32;
        let half_board_y: i32 = ((settings.height as u32) / 2) as i32;
        let cy = half_term_y - half_board_y;
        let mut by: i32 = if cy > 0 {
            cy
        } else {
            0
        };
        if settings.bordered {
            bx = if bx - 1 > 1 {
                bx - 1
            } else {
                1
            };
            by = if by - 1 > 1 {
                by - 1
            } else {
                1
            };
        }
        settings.board_x_pos = bx as u32;
        settings.board_y_pos = by as u32;
    } else {
        if settings.bordered {
            settings.board_x_pos = 1;
            settings.board_y_pos = 1;
        } else {
            settings.board_x_pos = 0;
            settings.board_y_pos = 0;
        }
    }
}

/// Where the next status line starts: at the board's left edge (one in from
/// a border), shifted to centre the text under a centred board, and below
/// the board when one is on screen; otherwise at the next free text row.
pub open spec fn spec_string_position(s: Settings, len: int) -> (int, int) {
    let x0 = if s.bordered {
        if s.board_x_pos - 1 > 0 {
            s.board_x_pos - 1
        } else {
            0
        }
    } else {
        s.board_x_pos as int
    };
    let x = if s.centered {
        let xc = x0 - len / 2 + (s.width * 3) / 2;
        if xc > 0 {
            xc
        } else {
            0
        }
    } else {
        x0
    };
    let y = if s.showing_board {
        s.str_y_pos + s.board_y_pos + s.height + (if s.bordered {
            1int
        } else {
            0int
        })
    } else {
        s.str_y_pos as int
    };
    (x, y)
}

/// Computes where a status string of `len` characters is printed and claims
/// the row, advancing `str_y_pos` to the next free line (saturating at its
/// bound so the settings stay well formed).
pub fn string_position(settings: &mut Settings, len: usize) -> (r: (u32, u32))
    requires
        old(settings).wf(),
        len <= 0x10000,
    ensures
        r.0 as int == spec_string_position(*old(settings), len as int).0,
        r.1 as int == spec_string_position(*old(settings), len as int).1,
        *final(settings) == (Settings {
            str_y_pos: if old(settings).str_y_pos < 0x10000 {
                (old(settings).str_y_pos + 1) as u32
            } else {
                old(settings).str_y_pos
            },
            ..*old(settings)
        }),
        final(settings).wf(),
{
    let x0: u32 = if settings.bordered {
        if settings.board_x_pos >= 2 {
            settings.board_x_pos - 1
        } else {
            0
        }
    } else {
        settings.board_x_pos
    };
    let x: u32 = if settings.centered {
        let xc: i64 = x0 as i64 - (len as i64) / 2 + ((settings.width as i64) * 3) / 2;
        if xc > 0 {
            xc as u32
        } else {
            0
        }
    } else {
        x0
    };
    let y: u32 = if settings.showing_board {
        settings.str_y_pos + settings.board_y_pos + (settings.height as u32) + (if settings.bordered {
            1
        } else {
            0
        })
    } else {
        settings.str_y_pos
    };
    if settings.str_y_pos < 0x10000 {
        settings.str_y_pos = settings.str_y_pos + 1;
    }
    (x, y)
}

} // verus!
