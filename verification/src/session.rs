//! The game session state machine. A session starts playing, and moves to
//! `Won` when the last remaining safe cell is revealed or to `Lost` the
//! moment a mine is revealed; both are terminal, and entering either
//! normalizes the board for the end-of-game render by uncovering and
//! deselecting every cell. Flagged cells are immune to reveal, and flag
//! toggles never change the state.

use vstd::prelude::*;

use crate::board::{in_grid, pos_view, Board};
use crate::cell::{Cell, CellContent};
use crate::flood::{
    contents_of, deobfuscate_board, flood_keep_fn, flood_opens, is_mine_at, is_zero_at,
    lemma_contents_congruence, lemma_filter_compose, lemma_filter_congruence,
    lemma_filter_keeps_all, lemma_filter_split_len, ne_fn,
};
use crate::placement::{
    eligible_count, in_safe_zone, initialize_free_cells, lemma_count_mines_from_congruence,
    lemma_eligible_count_range, lemma_mines_in_prefix_congruence, mine_count, place_mines,
    place_numbers, total_mines, unflatten,
};
use crate::screen::CellPos;
use crate::settings::Settings;

verus! {

/// What the player chose to end a selection round with: activating the
/// cursor's cell, or leaving for the menu.
#[derive(Clone, Copy, Debug, PartialEq, Eq, Structural)]
pub enum Choice {
    Click,
    Exit,
}

/// The outcome of one reveal: `Dead` for a mine, `Fine` for anything else
/// (including a reveal swallowed by a flag).
#[derive(Clone, Copy, Debug, PartialEq, Eq, Structural)]
pub enum Click {
    Dead,
    Fine,
}

/// Where the session stands. `Won` and `Lost` are terminal: after either,
/// the board is only read, never mutated.
#[derive(Clone, Copy, Debug, PartialEq, Eq, Structural)]
pub enum GameState {
    Playing,
    Won,
    Lost,
}

/// The win test: the game is won exactly when no safe cell remains hidden.
pub fn won(hidden_cells: &Vec<(usize, usize)>) -> (r: bool)
    ensures
        r == (hidden_cells@.len() == 0),
{
    hidden_cells.is_empty()
}

/// Toggles the flag on a hidden cell; a revealed cell is left alone (a
/// no-op by convention, not an error). Flagging never reveals anything.
pub fn flag(board: &mut Board, cell_pos: CellPos)
    requires
        old(board).wf(),
        0 <= cell_pos.x < old(board).width,
        0 <= cell_pos.y < old(board).height,
    ensures
        final(board).wf(),
        final(board).width == old(board).width,
        final(board).height == old(board).height,
        ({
            let p = (cell_pos.y as int, cell_pos.x as int);
            if old(board).at(p).hidden {
                final(board).cells@ == old(board).cells@.update(
                    old(board).flat(p),
                    (Cell { flagged: !old(board).at(p).flagged, ..old(board).at(p) }),
                )
            } else {
                final(board).cells@ == old(board).cells@
            }
        }),
{
    let y = cell_pos.y as usize;
    let x = cell_pos.x as usize;
    let c = board.get(y, x);
    proof {
        board.lemma_flat((y as int, x as int), (y as int, x as int));
        assert(c.wf());
    }
    if c.hidden {
        board.set(y, x, Cell { flagged: !c.flagged, ..c });
    }
}

/// Which positions one reveal event at `start` opens: nothing when the cell
/// is flagged (flag immunity) or a mine (the session dies instead); the cell
/// alone when it carries a positive hint; the cell and everything its flood
/// fill reaches when its hint is zero.
pub open spec fn event_opens(pre: Board, start: (int, int), p: (int, int)) -> bool {
    let c = pre.at(start);
    if c.flagged || c.is_mine() {
        false
    } else if c.is_zero() {
        p == start || flood_opens(
            contents_of(pre.cells@),
            pre.width as int,
            pre.height as int,
            start,
            p,
        )
    } else {
        p == start
    }
}

/// What one reveal event keeps of the remaining-safe list: every position
/// the event does not open.
pub open spec fn event_keep_fn(pre: Board, start: (int, int)) -> spec_fn((usize, usize)) -> bool {
    |q: (usize, usize)| !event_opens(pre, start, pos_view(q))
}

/// The positions of the remaining-safe list that one reveal event opens.
pub open spec fn event_open_fn(pre: Board, start: (int, int)) -> spec_fn((usize, usize)) -> bool {
    |q: (usize, usize)| event_opens(pre, start, pos_view(q))
}

/// One reveal shrinks the remaining-safe list by exactly the number of its
/// entries it opens: the kept entries and the opened entries partition the
/// list. Under the session invariant the list holds each hidden safe cell
/// once, so the shrinkage equals the number of cells newly revealed.
pub proof fn lemma_click_shrinks_by_opened(
    pre: Board,
    start: (int, int),
    hc0: Seq<(usize, usize)>,
    hc1: Seq<(usize, usize)>,
)
    requires
        hc1 == hc0.filter(event_keep_fn(pre, start)),
    ensures
        hc0.len() == hc1.len() + hc0.filter(event_open_fn(pre, start)).len(),
{
    assert forall|q: (usize, usize)| #[trigger] event_open_fn(pre, start)(q) == !event_keep_fn(
        pre,
        start,
    )(q) by {}
    lemma_filter_split_len(hc0, event_keep_fn(pre, start), event_open_fn(pre, start));
}

/// What a reveal on an unflagged zero-hint cell opens, said by reachability
/// alone: exactly the cells of the click's zero region that are not mines.
pub proof fn lemma_event_opens_is_zero_region(b: Board, start: (int, int), p: (int, int))
    requires
        b.wf(),
        b.pos_in_grid(start),
        !b.at(start).flagged,
        b.at(start).is_zero(),
    ensures
        event_opens(b, start, p) <==> (crate::region::zero_region(
            contents_of(b.cells@),
            b.width as int,
            b.height as int,
            start,
            p,
        ) && !is_mine_at(contents_of(b.cells@), b.width as int, p)),
{
    let g = contents_of(b.cells@);
    let w = b.width as int;
    let h = b.height as int;
    b.lemma_flat(start, start);
    assert(g[b.flat(start)] == b.cells@[b.flat(start)].content);
    assert(is_zero_at(g, w, start));
    crate::region::lemma_flood_opens_is_zero_region(g, w, h, start, p);
    if p == start {
        assert(crate::region::zero_connected(g, w, h, start, start)) by {
            let path = seq![start];
            assert(crate::region::zero_chain(g, w, h, path)) by {
                assert(path[0] == start);
            }
            assert(path.last() == start);
        }
        assert(crate::region::near(start, p));
    }
}

/// A reveal that opens nothing (a flagged cell or a mine) keeps the whole
/// remaining-safe list word for word.
proof fn lemma_event_keeps_everything(pre: Board, start: (int, int), hc: Seq<(usize, usize)>)
    requires
        pre.at(start).flagged || pre.at(start).is_mine(),
    ensures
        hc.filter(event_keep_fn(pre, start)) == hc,
{
    assert forall|k: int| 0 <= k < hc.len() implies event_keep_fn(pre, start)(
        #[trigger] hc[k],
    ) by {
        assert(!event_opens(pre, start, pos_view(hc[k])));
    }
    lemma_filter_keeps_all(hc, event_keep_fn(pre, start));
}

/// One reveal event on the board: flag immunity first, then death on a
/// mine, then the reveal itself, flood-filling from zero-hint cells. The
/// remaining-safe list loses exactly the opened positions, its other
/// entries staying in place; contents, flags and the cursor are untouched.
pub fn event(cell_pos: CellPos, board: &mut Board, hidden_cells: &mut Vec<(usize, usize)>) -> (r:
    Click)
    requires
        old(board).wf(),
        0 <= cell_pos.x < old(board).width,
        0 <= cell_pos.y < old(board).height,
        old(hidden_cells)@.no_duplicates(),
    ensures
        final(board).wf(),
        final(board).width == old(board).width,
        final(board).height == old(board).height,
        final(board).cells@.len() == old(board).cells@.len(),
        forall|i: int| 0 <= i < final(board).cells@.len() ==> {
            &&& (#[trigger] final(board).cells@[i]).content == old(board).cells@[i].content
            &&& final(board).cells@[i].flagged == old(board).cells@[i].flagged
            &&& final(board).cells@[i].selected == old(board).cells@[i].selected
        },
        forall|p: (int, int)|
            old(board).pos_in_grid(p) ==> (#[trigger] final(board).at(p)).hidden == (old(
                board,
            ).at(p).hidden && !event_opens(*old(board), (cell_pos.y as int, cell_pos.x as int), p)),
        final(hidden_cells)@.no_duplicates(),
        forall|q: (usize, usize)| #[trigger]
            final(hidden_cells)@.contains(q) <==> (old(hidden_cells)@.contains(q) && !event_opens(
                *old(board),
                (cell_pos.y as int, cell_pos.x as int),
                pos_view(q),
            )),
        final(hidden_cells)@ == old(hidden_cells)@.filter(
            event_keep_fn(*old(board), (cell_pos.y as int, cell_pos.x as int)),
        ),
        r == Click::Dead <==> (old(board).at((cell_pos.y as int, cell_pos.x as int)).is_mine()
            && !old(board).at((cell_pos.y as int, cell_pos.x as int)).flagged),
        ({
            let c = old(board).at((cell_pos.y as int, cell_pos.x as int));
            (c.flagged || c.is_mine()) ==> (final(board).cells@ == old(board).cells@
                && final(hidden_cells)@ == old(hidden_cells)@)
        }),
{
    let y = cell_pos.y as usize;
    let x = cell_pos.x as usize;
    let ghost start = (cell_pos.y as int, cell_pos.x as int);
    let cell = board.get(y, x);
    if cell.flagged {
        proof {
            lemma_event_keeps_everything(*board, start, hidden_cells@);
        }
        return Click::Fine;
    }
    match cell.content {
        CellContent::Mine => {
            proof {
                lemma_event_keeps_everything(*board, start, hidden_cells@);
            }
            Click::Dead
        },
        CellContent::Empty(n) => {
            let ghost b0 = *board;
            let ghost hc0 = hidden_cells@;
            proof {
                board.lemma_flat(start, start);
            }
            board.set(y, x, Cell { hidden: false, ..cell });
            crate::flood::remove_pos(hidden_cells, (y, x));
            if n == 0 {
                let ghost b1 = *board;
                let ghost hc1 = hidden_cells@;
                deobfuscate_board(board, cell_pos, hidden_cells);
                proof {
                    lemma_contents_congruence(b1.cells@, b0.cells@);
                    assert forall|p: (int, int)| b0.pos_in_grid(p) implies (
                    #[trigger] board.at(p)).hidden == (b0.at(p).hidden && !event_opens(
                        b0,
                        start,
                        p,
                    )) by {
                        board.lemma_flat(p, start);
                        assert(b1.at(p).hidden == (b0.at(p).hidden && p != start));
                    }
                    assert forall|q: (usize, usize)| #[trigger]
                        hidden_cells@.contains(q) <==> (hc0.contains(q) && !event_opens(
                            b0,
                            start,
                            pos_view(q),
                        )) by {
                        assert(hc1.contains(q) <==> (hc0.contains(q) && q != (y, x)));
                        assert(pos_view(q) == start <==> q == (y, x));
                    }
                    assert forall|q: (usize, usize)| #[trigger] event_keep_fn(b0, start)(q) == (
                    ne_fn((y, x))(q) && flood_keep_fn(b1, start)(q)) by {
                        assert(pos_view(q) == start <==> q == (y, x));
                    }
                    lemma_filter_compose(
                        hc0,
                        ne_fn((y, x)),
                        flood_keep_fn(b1, start),
                        event_keep_fn(b0, start),
                    );
                }
                Click::Fine
            } else {
                proof {
                    assert forall|p: (int, int)| b0.pos_in_grid(p) implies (
                    #[trigger] board.at(p)).hidden == (b0.at(p).hidden && !event_opens(
                        b0,
                        start,
                        p,
                    )) by {
                        board.lemma_flat(p, start);
                    }
                    assert forall|q: (usize, usize)| #[trigger]
                        hidden_cells@.contains(q) <==> (hc0.contains(q) && !event_opens(
                            b0,
                            start,
                            pos_view(q),
                        )) by {
                        assert(pos_view(q) == start <==> q == (y, x));
                    }
                    assert forall|q: (usize, usize)| #[trigger] event_keep_fn(b0, start)(q)
                        == ne_fn((y, x))(q) by {
                        assert(pos_view(q) == start <==> q == (y, x));
                    }
                    lemma_filter_congruence(hc0, ne_fn((y, x)), event_keep_fn(b0, start));
                }
                Click::Fine
            }
        },
    }
}

/// Uncovers and deselects every cell for the end-of-game render, and
/// returns the positions whose appearance changed, for an incremental
/// redraw. Contents and flags stay as they were.
pub fn reveal_board(board: &mut Board) -> (r: Vec<(usize, usize)>)
    requires
        old(board).wf(),
    ensures
        final(board).wf(),
        final(board).width == old(board).width,
        final(board).height == old(board).height,
        final(board).cells@.len() == old(board).cells@.len(),
        forall|i: int| 0 <= i < final(board).cells@.len() ==> {
            &&& (#[trigger] final(board).cells@[i]).content == old(board).cells@[i].content
            &&& final(board).cells@[i].flagged == old(board).cells@[i].flagged
            &&& !final(board).cells@[i].hidden
            &&& !final(board).cells@[i].selected
        },
        r@.no_duplicates(),
        forall|q: (usize, usize)| #[trigger]
            r@.contains(q) <==> (old(board).pos_in_grid(pos_view(q)) && (old(board).at(
                pos_view(q),
            ).hidden || old(board).at(pos_view(q)).selected)),
{
    let w = board.width;
    let h = board.height;
    assert(w * h <= 0x1000000) by (nonlinear_arith)
        requires
            w <= 0x1000,
            h <= 0x1000,
    ;
    let total: usize = w * h;
    let mut r: Vec<(usize, usize)> = Vec::new();
    let mut i: usize = 0;
    while i < total
        invariant
            board.wf(),
            old(board).wf(),
            board.width == w,
            board.height == h,
            old(board).width == w,
            old(board).height == h,
            total == w * h,
            board.cells@.len() == total,
            old(board).cells@.len() == total,
            i <= total,
            forall|k: int| 0 <= k < total ==> {
                &&& (#[trigger] board.cells@[k]).content == old(board).cells@[k].content
                &&& board.cells@[k].flagged == old(board).cells@[k].flagged
            },
            forall|k: int| 0 <= k < i ==> !(#[trigger] board.cells@[k]).hidden
                && !board.cells@[k].selected,
            forall|k: int| i <= k < total ==> (#[trigger] board.cells@[k]) == old(board).cells@[k],
            forall|k1: int, k2: int| 0 <= k1 < k2 < r@.len() ==> (r@[k1].0 as int) * (w as int)
                + (r@[k1].1 as int) < (r@[k2].0 as int) * (w as int) + (r@[k2].1 as int),
            forall|k: int| 0 <= k < r@.len() ==> in_grid(
                w as int,
                h as int,
                pos_view(#[trigger] r@[k]),
            ) && (r@[k].0 as int) * (w as int) + (r@[k].1 as int) < i as int,
            forall|q: (usize, usize)| #[trigger]
                r@.contains(q) ==> (old(board).pos_in_grid(pos_view(q)) && (old(board).at(
                    pos_view(q),
                ).hidden || old(board).at(pos_view(q)).selected)),
            forall|q: (usize, usize)|
                old(board).pos_in_grid(pos_view(q)) && (q.0 as int) * (w as int) + (q.1 as int)
                    < i as int && (old(board).at(pos_view(q)).hidden || old(board).at(
                    pos_view(q),
                ).selected) ==> #[trigger] r@.contains(q),
        decreases total - i,
    {
        let p = unflatten(w, h, i);
        let c = board.get(p.0, p.1);
        proof {
            board.lemma_flat(pos_view(p), pos_view(p));
            assert(board.flat(pos_view(p)) == i as int);
        }
        let ghost r_old = r@;
        if c.hidden || c.selected {
            r.push(p);
        }
        proof {
            assert(c.wf());
            assert((Cell { hidden: false, selected: false, ..c }).wf());
            assert(old(board).flat(pos_view(p)) == i as int);
            assert(old(board).at(pos_view(p)) == c);
        }
        board.set(p.0, p.1, Cell { hidden: false, selected: false, ..c });
        proof {
            assert forall|q: (usize, usize)| #[trigger]
                r@.contains(q) implies (old(board).pos_in_grid(pos_view(q)) && (old(board).at(
                pos_view(q),
            ).hidden || old(board).at(pos_view(q)).selected)) by {
                if r_old.contains(q) {
                } else {
                    let a = choose|a: int| 0 <= a < r@.len() && r@[a] == q;
                    if a < r_old.len() {
                        assert(r_old[a] == q);
                    }
                    assert(q == p);
                }
            }
            assert forall|q: (usize, usize)|
                old(board).pos_in_grid(pos_view(q)) && (q.0 as int) * (w as int) + (q.1 as int) < i
                    + 1 && (old(board).at(pos_view(q)).hidden || old(board).at(
                pos_view(q),
            ).selected) implies #[trigger] r@.contains(q) by {
                if (q.0 as int) * (w as int) + (q.1 as int) == i as int {
                    board.lemma_flat(pos_view(q), pos_view(p));
                    assert(q == p);
                    assert(r@[r@.len() - 1] == q);
                } else {
                    assert(r_old.contains(q));
                    let idx = choose|idx: int| 0 <= idx < r_old.len() && r_old[idx] == q;
                    assert(r@[idx] == q);
                }
            }
        }
        i = i + 1;
    }
    proof {
        assert forall|q: (usize, usize)| #[trigger]
            r@.contains(q) <==> (old(board).pos_in_grid(pos_view(q)) && (old(board).at(
            pos_view(q),
        ).hidden || old(board).at(pos_view(q)).selected)) by {
            if old(board).pos_in_grid(pos_view(q)) && (old(board).at(pos_view(q)).hidden || old(
                board,
            ).at(pos_view(q)).selected) {
                old(board).lemma_flat(pos_view(q), pos_view(q));
            }
        }
        assert forall|k1: int, k2: int| 0 <= k1 < k2 < r@.len() implies r@[k1] != r@[k2] by {}
    }
    r
}

/// The remaining-safe-cell list matches the board: it holds, once each,
/// exactly the on-board positions that are neither mines nor revealed.
pub open spec fn hidden_inv(board: Board, hc: Seq<(usize, usize)>) -> bool {
    &&& hc.no_duplicates()
    &&& forall|q: (usize, usize)| #[trigger]
        hc.contains(q) <==> (board.pos_in_grid(pos_view(q)) && !board.at(pos_view(q)).is_mine()
            && board.at(pos_view(q)).hidden)
}

/// The win property: a session that is not lost stands at `Won` exactly
/// when no safe cell remains hidden. Mines are allowed to stay hidden at
/// the moment of winning; only the end-of-game normalization uncovers them.
pub proof fn lemma_won_iff_no_safe_cells(s: Session)
    requires
        s.wf(),
        s.state != GameState::Lost,
    ensures
        s.state == GameState::Won <==> s.hidden_cells@.len() == 0,
{
}

/// One game from first click to its end: the board, the remaining safe
/// cells, and where the session stands.
pub struct Session {
    pub board: Board,
    pub hidden_cells: Vec<(usize, usize)>,
    pub state: GameState,
}

impl Session {
    /// While playing, the safe list matches the board and is never empty
    /// (else the game would already be won); in a terminal state the board
    /// is normalized for the end render, and a won board has no safe cell
    /// left.
    pub open spec fn wf(self) -> bool {
        &&& self.board.wf()
        &&& self.state == GameState::Playing ==> (hidden_inv(self.board, self.hidden_cells@)
            && self.hidden_cells@.len() > 0)
        &&& self.state != GameState::Playing ==> (forall|p: (int, int)|
            self.board.pos_in_grid(p) ==> (!(#[trigger] self.board.at(p)).hidden
                && !self.board.at(p).selected))
        &&& self.state == GameState::Won ==> self.hidden_cells@.len() == 0
    }

    /// Starts a session once the first click is known: a fresh hidden
    /// board, mines seeded away from the click's 3-by-3 safe zone, hints
    /// filled in, every safe cell pending. Exactly the configured number of
    /// mines is placed whenever it fits among the eligible cells.
    pub fn new(settings: &Settings, first_click: CellPos) -> (s: Session)
        requires
            settings.wf(),
            0 <= first_click.x < settings.width,
            0 <= first_click.y < settings.height,
        ensures
            s.wf(),
            s.state == GameState::Playing,
            s.board.width == settings.width,
            s.board.height == settings.height,
            forall|p: (int, int)|
                s.board.pos_in_grid(p) && in_safe_zone(
                    first_click.y as int,
                    first_click.x as int,
                    p,
                ) ==> !(#[trigger] s.board.at(p)).is_mine(),
            total_mines(s.board.cells@) == ({
                let avail = eligible_count(
                    settings.width as int,
                    settings.height as int,
                    first_click.y as int,
                    first_click.x as int,
                );
                if settings.mines as int <= avail {
                    settings.mines as int
                } else {
                    avail
                }
            }),
            forall|p: (int, int)| #[trigger]
                s.board.pos_in_grid(p) && !s.board.at(p).is_mine() ==> s.board.at(p).content
                    == CellContent::Empty(
                    mine_count(
                        s.board.cells@,
                        settings.width as int,
                        settings.height as int,
                        p.0,
                        p.1,
                    ) as u8,
                ),
            forall|p: (int, int)|
                s.board.pos_in_grid(p) ==> (#[trigger] s.board.at(p)).hidden && !s.board.at(
                    p,
                ).flagged && !s.board.at(p).selected,
            s.hidden_cells@.len() + total_mines(s.board.cells@) == s.board.cells@.len(),
    {
        let w = settings.width as usize;
        let h = settings.height as usize;
        let mut board = Board::new(w, h);
        let ghost b_new = board;
        place_mines(&mut board, settings, first_click);
        let ghost b_mines = board;
        place_numbers(&mut board);
        proof {
            assert forall|p: (int, int)| board.pos_in_grid(p) implies ((#[trigger] board.at(
                p,
            )).hidden && !board.at(p).flagged && !board.at(p).selected) by {
                board.lemma_flat(p, p);
                let fi = board.flat(p);
                assert(b_new.cells@[fi].hidden && !b_new.cells@[fi].flagged
                    && !b_new.cells@[fi].selected);
                assert(b_mines.cells@[fi].hidden == b_new.cells@[fi].hidden);
                assert(board.cells@[fi].hidden == b_mines.cells@[fi].hidden);
            }
            lemma_mines_in_prefix_congruence(
                board.cells@,
                b_mines.cells@,
                board.cells@.len() as int,
            );
            assert forall|p: (int, int)| #[trigger]
                board.pos_in_grid(p) && !board.at(p).is_mine() implies board.at(p).content
                == CellContent::Empty(
                mine_count(board.cells@, settings.width as int, settings.height as int, p.0, p.1)
                    as u8,
            ) by {
                board.lemma_flat(p, p);
                let al = crate::board::around_list(w as int, h as int, p.0, p.1);
                assert forall|j: int| 0 <= j < al.len() implies (0 <= (#[trigger] al[j]).0 * (
                w as int) + al[j].1 < board.cells@.len()) by {
                    crate::board::lemma_around_list_in_grid(w as int, h as int, p.0, p.1);
                    board.lemma_flat(al[j], al[j]);
                }
                lemma_count_mines_from_congruence(
                    board.cells@,
                    b_mines.cells@,
                    w as int,
                    al,
                    0,
                );
            }
            lemma_eligible_count_range(
                w as int,
                h as int,
                first_click.y as int,
                first_click.x as int,
            );
        }
        let hidden_cells = initialize_free_cells(&board);
        proof {
            assert(hidden_cells@.len() > 0);
            assert forall|q: (usize, usize)| #[trigger]
                hidden_cells@.contains(q) <==> (board.pos_in_grid(pos_view(q)) && !board.at(
                pos_view(q),
            ).is_mine() && board.at(pos_view(q)).hidden) by {}
        }
        Session { board, hidden_cells, state: GameState::Playing }
    }

    /// One reveal action at `pos`, driving the state machine:
    /// - in a terminal state, or on a flagged cell, nothing changes at all;
    /// - on a mine, the session is lost unconditionally and the board is
    ///   normalized for the final render;
    /// - otherwise the event's cells are opened and leave the safe list,
    ///   and the session is won exactly when that list empties.
    pub fn click(&mut self, pos: CellPos) -> (r: Click)
        requires
            old(self).wf(),
            0 <= pos.x < old(self).board.width,
            0 <= pos.y < old(self).board.height,
        ensures
            final(self).wf(),
            final(self).board.width == old(self).board.width,
            final(self).board.height == old(self).board.height,
            ({
                let b0 = old(self).board;
                let start = (pos.y as int, pos.x as int);
                let c = b0.at(start);
                let playing = old(self).state == GameState::Playing;
                &&& (r == Click::Dead <==> (playing && c.is_mine() && !c.flagged))
                &&& (!playing ==> (final(self).board.cells@ == b0.cells@
                    && final(self).hidden_cells@ == old(self).hidden_cells@
                    && final(self).state == old(self).state))
                &&& ((playing && c.flagged) ==> (final(self).board.cells@ == b0.cells@
                    && final(self).hidden_cells@ == old(self).hidden_cells@
                    && final(self).state == GameState::Playing))
                &&& ((playing && !c.flagged && c.is_mine()) ==> (final(self).state
                    == GameState::Lost && final(self).hidden_cells@ == old(self).hidden_cells@))
                &&& ((playing && !c.flagged && !c.is_mine()) ==> {
                    &&& final(self).hidden_cells@ == old(self).hidden_cells@.filter(
                        event_keep_fn(b0, start),
                    )
                    &&& (forall|q: (usize, usize)| #[trigger]
                        final(self).hidden_cells@.contains(q) <==> (old(
                            self,
                        ).hidden_cells@.contains(q) && !event_opens(b0, start, pos_view(q))))
                    &&& final(self).state == (if final(self).hidden_cells@.len() == 0 {
                        GameState::Won
                    } else {
                        GameState::Playing
                    })
                    &&& (final(self).state == GameState::Playing ==> forall|p: (int, int)|
                        b0.pos_in_grid(p) ==> (#[trigger] final(self).board.at(p)).hidden == (b0.at(
                            p,
                        ).hidden && !event_opens(b0, start, p)))
                })
                &&& (forall|i: int| 0 <= i < final(self).board.cells@.len() ==> {
                    &&& (#[trigger] final(self).board.cells@[i]).content == b0.cells@[i].content
                    &&& final(self).board.cells@[i].flagged == b0.cells@[i].flagged
                })
            }),
    {
        match self.state {
            GameState::Playing => {},
            _ => {
                return Click::Fine;
            },
        }
        let r = event(pos, &mut self.board, &mut self.hidden_cells);
        match r {
            Click::Dead => {
                self.state = GameState::Lost;
                let _changed = reveal_board(&mut self.board);
                proof {
                    assert forall|p: (int, int)| self.board.pos_in_grid(p) implies (!(
                    #[trigger] self.board.at(p)).hidden && !self.board.at(p).selected) by {
                        self.board.lemma_flat(p, p);
                    }
                }
                Click::Dead
            },
            Click::Fine => {
                if self.hidden_cells.is_empty() {
                    self.state = GameState::Won;
                    let _changed = reveal_board(&mut self.board);
                    proof {
                        assert forall|p: (int, int)| self.board.pos_in_grid(p) implies (!(
                        #[trigger] self.board.at(p)).hidden && !self.board.at(p).selected) by {
                            self.board.lemma_flat(p, p);
                        }
                    }
                } else {
                    proof {
                        let b0 = old(self).board;
                        let start = (pos.y as int, pos.x as int);
                        assert forall|q: (usize, usize)| #[trigger]
                            self.hidden_cells@.contains(q) <==> (self.board.pos_in_grid(pos_view(q))
                            && !self.board.at(pos_view(q)).is_mine() && self.board.at(
                            pos_view(q),
                        ).hidden) by {
                            if self.board.pos_in_grid(pos_view(q)) {
                                b0.lemma_flat(pos_view(q), pos_view(q));
                            }
                            if self.hidden_cells@.contains(q) {
                                assert(old(self).hidden_cells@.contains(q));
                            }
                        }
                    }
                }
                Click::Fine
            },
        }
    }

    /// A flag toggle: permitted on hidden cells while playing, a no-op
    /// anywhere else, and never a cause of reveal or state change.
    pub fn toggle_flag(&mut self, pos: CellPos)
        requires
            old(self).wf(),
            0 <= pos.x < old(self).board.width,
            0 <= pos.y < old(self).board.height,
        ensures
            final(self).wf(),
            final(self).state == old(self).state,
            final(self).hidden_cells@ == old(self).hidden_cells@,
            final(self).board.width == old(self).board.width,
            final(self).board.height == old(self).board.height,
            ({
                let p = (pos.y as int, pos.x as int);
                let b0 = old(self).board;
                if old(self).state == GameState::Playing && b0.at(p).hidden {
                    final(self).board.cells@ == b0.cells@.update(
                        b0.flat(p),
                        (Cell { flagged: !b0.at(p).flagged, ..b0.at(p) }),
                    )
                } else {
                    final(self).board.cells@ == b0.cells@
                }
            }),
    {
        match self.state {
            GameState::Playing => {},
            _ => {
                return ;
            },
        }
        let ghost b0 = self.board;
        flag(&mut self.board, pos);
        proof {
            let p = (pos.y as int, pos.x as int);
            b0.lemma_flat(p, p);
            if b0.at(p).hidden {
                assert forall|q: (usize, usize)| #[trigger]
                    self.hidden_cells@.contains(q) <==> (self.board.pos_in_grid(pos_view(q))
                    && !self.board.at(pos_view(q)).is_mine() && self.board.at(
                    pos_view(q),
                ).hidden) by {
                    if self.board.pos_in_grid(pos_view(q)) {
                        b0.lemma_flat(pos_view(q), p);
                    }
                }
            }
        }
    }
}

} // verus!
