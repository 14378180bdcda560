//! The decision core of the interactive selection loop. The loop itself
//! lives with the input device: it blocks on events, translates each into an
//! `InputAction`, and hands it here together with the board, cursor and
//! settings. This step function owns every state change — cursor movement
//! clamped to the board, the single-cursor highlight, flag toggles, board
//! panning — and says when the loop is over and with which choice. The
//! caller only redraws.

use vstd::prelude::*;

use crate::board::Board;
use crate::cell::Cell;
use crate::screen::{clamp_to, screen_to_cell_x, CellPos, MousePos};
use crate::session::{flag, Choice};
use crate::settings::{InputType, Settings};

verus! {

/// One recognized input, already separated from the raw device event.
/// Pointer actions matter only in mouse mode and key movement only in
/// keyboard mode; panning, flagging and leaving work in both.
#[derive(Clone, Copy, Debug, PartialEq, Eq, Structural)]
pub enum InputAction {
    MoveLeft,
    MoveRight,
    MoveUp,
    MoveDown,
    PointerMove(MousePos),
    PointerSelect,
    KeySelect,
    ToggleFlag,
    PanLeft,
    PanRight,
    PanUp,
    PanDown,
    ExitToMenu,
}

/// What the selection loop does after a step: go on waiting for input, or
/// stop and hand the choice back to the session driver.
#[derive(Clone, Copy, Debug, PartialEq, Eq, Structural)]
pub enum LoopCommand {
    Proceed,
    Finish(Choice),
}

/// The single-cursor discipline: exactly the cell under the cursor is
/// highlighted, every other cell is not.
pub open spec fn sel_inv(board: Board, cursor: CellPos) -> bool {
    forall|p: (int, int)|
        board.pos_in_grid(p) ==> ((#[trigger] board.at(p)).selected <==> p == (
        cursor.y as int,
        cursor.x as int,
        ))
}

/// Where the cursor lands after an action, clamped to the board; actions
/// for the other input device leave it in place.
pub open spec fn spec_new_cursor(cursor: CellPos, action: InputAction, s: Settings) -> CellPos {
    let kb = s.input_type == InputType::Keyboard;
    match action {
        InputAction::MoveLeft => if kb {
            CellPos { x: if cursor.x > 0 { (cursor.x - 1) as i32 } else { 0 }, y: cursor.y }
        } else {
            cursor
        },
        InputAction::MoveRight => if kb {
            CellPos {
                x: if cursor.x + 1 < s.width { (cursor.x + 1) as i32 } else { (s.width - 1) as i32 },
                y: cursor.y,
            }
        } else {
            cursor
        },
        InputAction::MoveUp => if kb {
            CellPos { x: cursor.x, y: if cursor.y > 0 { (cursor.y - 1) as i32 } else { 0 } }
        } else {
            cursor
        },
        InputAction::MoveDown => if kb {
            CellPos {
                x: cursor.x,
                y: if cursor.y + 1 < s.height { (cursor.y + 1) as i32 } else { (s.height - 1) as i32 },
            }
        } else {
            cursor
        },
        InputAction::PointerMove(m) => if !kb {
            CellPos {
                x: screen_to_cell_x(m.x as int, s.board_x_pos as int, s.width as int) as i32,
                y: clamp_to(m.y - s.board_y_pos, s.height as int) as i32,
            }
        } else {
            cursor
        },
        _ => cursor,
    }
}

/// How a pan action shifts the board's screen offset: one character per
/// step, never past the screen origin, saturating at the offset bound so
/// the settings stay well formed.
pub open spec fn spec_panned(s: Settings, action: InputAction) -> Settings {
    match action {
        InputAction::PanLeft => Settings {
            board_x_pos: if s.board_x_pos > 0 { (s.board_x_pos - 1) as u32 } else { 0 },
            ..s
        },
        InputAction::PanRight => Settings {
            board_x_pos: if s.board_x_pos < 0x10000 { (s.board_x_pos + 1) as u32 } else { s.board_x_pos },
            ..s
        },
        InputAction::PanUp => Settings {
            board_y_pos: if s.board_y_pos > 0 { (s.board_y_pos - 1) as u32 } else { 0 },
            ..s
        },
        InputAction::PanDown => Settings {
            board_y_pos: if s.board_y_pos < 0x10000 { (s.board_y_pos + 1) as u32 } else { s.board_y_pos },
            ..s
        },
        _ => s,
    }
}

/// Whether the step ends the loop, and how: selecting with the device the
/// session is configured for finishes with a click; leaving finishes with
/// the exit choice.
pub open spec fn spec_command(action: InputAction, s: Settings) -> LoopCommand {
    match action {
        InputAction::PointerSelect => if s.input_type == InputType::Mouse {
            LoopCommand::Finish(Choice::Click)
        } else {
            LoopCommand::Proceed
        },
        InputAction::KeySelect => if s.input_type == InputType::Keyboard {
            LoopCommand::Finish(Choice::Click)
        } else {
            LoopCommand::Proceed
        },
        InputAction::ExitToMenu => LoopCommand::Finish(Choice::Exit),
        _ => LoopCommand::Proceed,
    }
}

/// Moves the cursor highlight from `prev` to `next`: exactly those two
/// cells change their `selected` state, nothing else on the board moves.
pub fn move_selection(board: &mut Board, prev: CellPos, next: CellPos)
    requires
        old(board).wf(),
        0 <= prev.x < old(board).width,
        0 <= prev.y < old(board).height,
        0 <= next.x < old(board).width,
        0 <= next.y < old(board).height,
    ensures
        final(board).wf(),
        final(board).width == old(board).width,
        final(board).height == old(board).height,
        final(board).cells@.len() == old(board).cells@.len(),
        forall|i: int| 0 <= i < final(board).cells@.len() ==> {
            &&& (#[trigger] final(board).cells@[i]).content == old(board).cells@[i].content
            &&& final(board).cells@[i].flagged == old(board).cells@[i].flagged
            &&& final(board).cells@[i].hidden == old(board).cells@[i].hidden
        },
        forall|p: (int, int)|
            old(board).pos_in_grid(p) ==> ((#[trigger] final(board).at(p)).selected == (if p == (
            (next.y as int, next.x as int)) {
                true
            } else if p == ((prev.y as int, prev.x as int)) {
                false
            } else {
                old(board).at(p).selected
            })),
{
    let ghost b0 = *board;
    let pc = board.get(prev.y as usize, prev.x as usize);
    proof {
        board.lemma_flat((prev.y as int, prev.x as int), (prev.y as int, prev.x as int));
        assert(pc.wf());
    }
    board.set(prev.y as usize, prev.x as usize, Cell { selected: false, ..pc });
    let nc = board.get(next.y as usize, next.x as usize);
    proof {
        board.lemma_flat((next.y as int, next.x as int), (next.y as int, next.x as int));
        assert(nc.wf());
    }
    board.set(next.y as usize, next.x as usize, Cell { selected: true, ..nc });
    proof {
        assert forall|p: (int, int)| b0.pos_in_grid(p) implies ((#[trigger] board.at(p)).selected
            == (if p == ((next.y as int, next.x as int)) {
            true
        } else if p == ((prev.y as int, prev.x as int)) {
            false
        } else {
            b0.at(p).selected
        })) by {
            b0.lemma_flat(p, (prev.y as int, prev.x as int));
            b0.lemma_flat(p, (next.y as int, next.x as int));
        }
    }
}

/// One step of the selection loop: applies the action's whole effect —
/// cursor movement with its highlight, a flag toggle at the cursor, a pan
/// of the board offset — and reports the new cursor position and whether
/// the loop is done. The cursor stays on the board and stays the single
/// highlighted cell.
pub fn selection_step(
    board: &mut Board,
    cursor: CellPos,
    action: InputAction,
    settings: &mut Settings,
) -> (r: (CellPos, LoopCommand))
    requires
        old(board).wf(),
        old(settings).wf(),
        old(board).width == old(settings).width,
        old(board).height == old(settings).height,
        0 <= cursor.x < old(settings).width,
        0 <= cursor.y < old(settings).height,
        sel_inv(*old(board), cursor),
        (action matches InputAction::PointerMove(m) ==> (0 <= m.x <= 0xffff && 0 <= m.y
            <= 0xffff)),
    ensures
        final(board).wf(),
        final(settings).wf(),
        final(board).width == old(board).width,
        final(board).height == old(board).height,
        *final(settings) == spec_panned(*old(settings), action),
        r.0 == spec_new_cursor(cursor, action, *old(settings)),
        r.1 == spec_command(action, *old(settings)),
        0 <= r.0.x < old(settings).width,
        0 <= r.0.y < old(settings).height,
        sel_inv(*final(board), r.0),
        forall|i: int| 0 <= i < final(board).cells@.len() ==> {
            &&& (#[trigger] final(board).cells@[i]).content == old(board).cells@[i].content
            &&& final(board).cells@[i].hidden == old(board).cells@[i].hidden
        },
        (action != InputAction::ToggleFlag ==> forall|i: int|
            0 <= i < final(board).cells@.len() ==> (#[trigger] final(board).cells@[i]).flagged
                == old(board).cells@[i].flagged),
        (action == InputAction::ToggleFlag ==> ({
            let p = (cursor.y as int, cursor.x as int);
            if old(board).at(p).hidden {
                final(board).cells@ == old(board).cells@.update(
                    old(board).flat(p),
                    (Cell { flagged: !old(board).at(p).flagged, ..old(board).at(p) }),
                )
            } else {
                final(board).cells@ == old(board).cells@
            }
        })),
{
    let keyboard = matches!(settings.input_type, InputType::Keyboard);
    let mut next = cursor;
    match action {
        InputAction::MoveLeft => {
            if keyboard {
                next.x = if cursor.x > 0 {
                    cursor.x - 1
                } else {
                    0
                };
            }
        },
        InputAction::MoveRight => {
            if keyboard {
                next.x = if cursor.x + 1 < settings.width {
                    cursor.x + 1
                } else {
                    settings.width - 1
                };
            }
        },
        InputAction::MoveUp => {
            if keyboard {
                next.y = if cursor.y > 0 {
                    cursor.y - 1
                } else {
                    0
                };
            }
        },
        InputAction::MoveDown => {
            if keyboard {
                next.y = if cursor.y + 1 < settings.height {
                    cursor.y + 1
                } else {
                    settings.height - 1
                };
            }
        },
        InputAction::PointerMove(m) => {
            if !keyboard {
                next = m.convert(settings);
            }
        },
        InputAction::ToggleFlag => {
            flag(board, cursor);
            proof {
                let p = (cursor.y as int, cursor.x as int);
                old(board).lemma_flat(p, p);
                assert forall|p2: (int, int)| board.pos_in_grid(p2) implies ((
                #[trigger] board.at(p2)).selected <==> p2 == (cursor.y as int, cursor.x as int))
                    by {
                    old(board).lemma_flat(p2, p);
                    if old(board).at(p).hidden {
                        if p2 == p {
                            assert(board.at(p2) == (Cell {
                                flagged: !old(board).at(p).flagged,
                                ..old(board).at(p)
                            }));
                        } else {
                            assert(board.at(p2) == old(board).at(p2));
                        }
                    } else {
                        assert(board.at(p2) == old(board).at(p2));
                    }
                }
            }
        },
        InputAction::PanLeft => {
            settings.board_x_pos = if settings.board_x_pos > 0 {
                settings.board_x_pos - 1
            } else {
                0
            };
        },
        InputAction::PanRight => {
            if settings.board_x_pos < 0x10000 {
                settings.board_x_pos = settings.board_x_pos + 1;
            }
        },
        InputAction::PanUp => {
            settings.board_y_pos = if settings.board_y_pos > 0 {
                settings.board_y_pos - 1
            } else {
                0
            };
        },
        InputAction::PanDown => {
            if settings.board_y_pos < 0x10000 {
                settings.board_y_pos = settings.board_y_pos + 1;
            }
        },
        InputAction::PointerSelect => {},
        InputAction::KeySelect => {},
        InputAction::ExitToMenu => {},
    }
    if next.x != cursor.x || next.y != cursor.y {
        move_selection(board, cursor, next);
        proof {
            assert forall|p2: (int, int)| board.pos_in_grid(p2) implies ((
            #[trigger] board.at(p2)).selected <==> p2 == (next.y as int, next.x as int)) by {}
        }
    }
    let command = match action {
        InputAction::PointerSelect => {
            if matches!(settings.input_type, InputType::Mouse) {
                LoopCommand::Finish(Choice::Click)
            } else {
                LoopCommand::Proceed
            }
        },
        InputAction::KeySelect => {
            if matches!(settings.input_type, InputType::Keyboard) {
                LoopCommand::Finish(Choice::Click)
            } else {
                LoopCommand::Proceed
            }
        },
        InputAction::ExitToMenu => LoopCommand::Finish(Choice::Exit),
        _ => LoopCommand::Proceed,
    };
    (next, command)
}

} // verus!
