//! A single board cell: its fixed content and its mutable player-facing state.

use vstd::prelude::*;

verus! {

/// What a cell permanently holds once mines are placed: either a mine, or
/// the number of adjacent mines (0 through 8).
#[derive(Clone, Copy, Debug, PartialEq, Eq, Structural)]
pub enum CellContent {
    Empty(u8),
    Mine,
}

/// One grid position's full state. `content` is assigned during setup and
/// never changes afterwards; `hidden` and `flagged` change through reveal
/// and flag events; `selected` is the transient cursor highlight.
#[derive(Clone, Copy, Debug, PartialEq, Eq, Structural)]
pub struct Cell {
    pub hidden: bool,
    pub content: CellContent,
    pub flagged: bool,
    pub selected: bool,
}

impl Cell {
    /// An adjacency count never exceeds the eight neighbouring cells.
    pub open spec fn wf(self) -> bool {
        match self.content {
            CellContent::Empty(n) => n <= 8,
            CellContent::Mine => true,
        }
    }

    /// The all-hidden, empty, unflagged, unselected cell a fresh board is
    /// filled with.
    pub fn new() -> (c: Cell)
        ensures
            c == (Cell { hidden: true, content: CellContent::Empty(0u8), flagged: false, selected: false }),
    {
        Cell { hidden: true, content: CellContent::Empty(0), flagged: false, selected: false }
    }

    pub open spec fn is_mine(self) -> bool {
        self.content is Mine
    }

    pub open spec fn is_zero(self) -> bool {
        self.content == CellContent::Empty(0u8)
    }
}

/// What the render sink should draw for a cell: the key into its glyph and
/// colour tables. The tables themselves are decorative and live outside the
/// engine.
#[derive(Clone, Copy, Debug, PartialEq, Eq, Structural)]
pub enum GlyphKey {
    Covered,
    Flag,
    MineGlyph,
    Blank,
    Digit(u8),
}

/// Chooses the glyph for a cell: a flag wherever one is planted, the covered
/// glyph for hidden cells, and otherwise the cell's own content, with a zero
/// count drawn blank.
pub fn glyph_key(cell: &Cell) -> (g: GlyphKey)
    ensures
        g == spec_glyph_key(*cell),
{
    if cell.flagged {
        GlyphKey::Flag
    } else if cell.hidden {
        GlyphKey::Covered
    } else {
        match cell.content {
            CellContent::Mine => GlyphKey::MineGlyph,
            CellContent::Empty(n) => {
                if n == 0 {
                    GlyphKey::Blank
                } else {
                    GlyphKey::Digit(n)
                }
            },
        }
    }
}

pub open spec fn spec_glyph_key(cell: Cell) -> GlyphKey {
    if cell.flagged {
        GlyphKey::Flag
    } else if cell.hidden {
        GlyphKey::Covered
    } else {
        match cell.content {
            CellContent::Mine => GlyphKey::MineGlyph,
            CellContent::Empty(n) => if n == 0 { GlyphKey::Blank } else { GlyphKey::Digit(n) },
        }
    }
}

} // verus!
