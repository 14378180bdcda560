//! The board model: a fixed-size grid of cells with row-major storage and
//! neighbour queries over the eight surrounding positions.

use vstd::prelude::*;
use vstd::pervasive::VecAdditionalExecFns;

use crate::cell::{Cell, CellContent};

verus! {

/// Positions are `(row, column)` pairs; a position lies on a `width` by
/// `height` board when both coordinates are within range.
pub open spec fn in_grid(w: int, h: int, p: (int, int)) -> bool {
    0 <= p.0 < h && 0 <= p.1 < w
}

pub open spec fn pos_view(p: (usize, usize)) -> (int, int) {
    (p.0 as int, p.1 as int)
}

pub open spec fn poss_view(s: Seq<(usize, usize)>) -> Seq<(int, int)> {
    s.map_values(|p: (usize, usize)| pos_view(p))
}

/// The nine offsets of the 3-by-3 block centred on a cell, in row-major
/// order, the centre among them.
pub open spec fn block_offsets() -> Seq<(int, int)> {
    seq![
        (-1int, -1int),
        (-1int, 0int),
        (-1int, 1int),
        (0int, -1int),
        (0int, 0int),
        (0int, 1int),
        (1int, -1int),
        (1int, 0int),
        (1int, 1int),
    ]
}

/// The singleton `[(y, x)]` when the position is on the board, else empty.
pub open spec fn maybe_pos(w: int, h: int, y: int, x: int) -> Seq<(int, int)> {
    if in_grid(w, h, (y, x)) {
        seq![(y, x)]
    } else {
        Seq::empty()
    }
}

/// The in-bounds positions of the 3-by-3 block centred on `(y, x)`, using
/// only the first `k` offsets.
pub open spec fn around_upto(w: int, h: int, y: int, x: int, k: int) -> Seq<(int, int)>
    decreases k,
        when 0 <= k <= 9
{
    if k == 0 {
        Seq::empty()
    } else {
        let o = block_offsets()[k - 1];
        around_upto(w, h, y, x, k - 1) + maybe_pos(w, h, y + o.0, x + o.1)
    }
}

/// All in-bounds positions of the 3-by-3 block centred on `(y, x)`, in
/// row-major order, the centre included. A cell's neighbourhood, then, is
/// this list without the centre.
pub open spec fn around_list(w: int, h: int, y: int, x: int) -> Seq<(int, int)> {
    around_upto(w, h, y, x, 9)
}

pub(crate) proof fn lemma_add_contains<A>(a: Seq<A>, b: Seq<A>, x: A)
    ensures
        (a + b).contains(x) <==> a.contains(x) || b.contains(x),
{
    if a.contains(x) {
        let i = choose|i: int| 0 <= i < a.len() && a[i] == x;
        assert((a + b)[i] == x);
    }
    if b.contains(x) {
        let i = choose|i: int| 0 <= i < b.len() && b[i] == x;
        assert((a + b)[a.len() + i] == x);
    }
    if (a + b).contains(x) {
        let i = choose|i: int| 0 <= i < (a + b).len() && (a + b)[i] == x;
        if i < a.len() {
            assert(a[i] == x);
        } else {
            assert(b[i - a.len()] == x);
        }
    }
}

/// Membership among the first `k` offsets: exactly the in-bounds positions
/// reached by one of them.
proof fn lemma_around_upto_contains(w: int, h: int, y: int, x: int, k: int, p: (int, int))
    requires
        0 <= k <= 9,
    ensures
        around_upto(w, h, y, x, k).contains(p) <==> (in_grid(w, h, p) && exists|j: int|
            0 <= j < k && p == ((y + block_offsets()[j].0, x + block_offsets()[j].1))),
    decreases k,
{
    if k > 0 {
        let o = block_offsets()[k - 1];
        lemma_around_upto_contains(w, h, y, x, k - 1, p);
        lemma_add_contains(around_upto(w, h, y, x, k - 1), maybe_pos(w, h, y + o.0, x + o.1), p);
        if in_grid(w, h, p) && p == ((y + o.0, x + o.1)) {
            assert(maybe_pos(w, h, y + o.0, x + o.1).contains(p)) by {
                assert(maybe_pos(w, h, y + o.0, x + o.1)[0] == p);
            }
        }
        if maybe_pos(w, h, y + o.0, x + o.1).contains(p) {
            assert(p == ((y + o.0, x + o.1)) && in_grid(w, h, p));
        }
    }
}

/// The positions around `(y, x)` are exactly the in-bounds positions at
/// Chebyshev distance at most one, the centre included.
pub proof fn lemma_around_list_contains(w: int, h: int, y: int, x: int, p: (int, int))
    ensures
        around_list(w, h, y, x).contains(p) <==> (in_grid(w, h, p) && y - 1 <= p.0 <= y + 1 && x - 1
            <= p.1 <= x + 1),
{
    lemma_around_upto_contains(w, h, y, x, 9, p);
    if in_grid(w, h, p) && y - 1 <= p.0 <= y + 1 && x - 1 <= p.1 <= x + 1 {
        let dy = p.0 - y;
        let dx = p.1 - x;
        let j = 3 * (dy + 1) + (dx + 1);
        assert(p == ((y + block_offsets()[j].0, x + block_offsets()[j].1)));
    }
}

/// The block list never holds more than nine positions.
pub proof fn lemma_around_upto_len(w: int, h: int, y: int, x: int, k: int)
    requires
        0 <= k <= 9,
    ensures
        around_upto(w, h, y, x, k).len() <= k,
    decreases k,
{
    if k > 0 {
        lemma_around_upto_len(w, h, y, x, k - 1);
    }
}

/// Every position in the block list lies on the board.
pub proof fn lemma_around_list_in_grid(w: int, h: int, y: int, x: int)
    ensures
        forall|k: int| 0 <= k < around_list(w, h, y, x).len() ==> in_grid(
            w,
            h,
            #[trigger] around_list(w, h, y, x)[k],
        ),
{
    assert forall|k: int| 0 <= k < around_list(w, h, y, x).len() implies in_grid(
        w,
        h,
        #[trigger] around_list(w, h, y, x)[k],
    ) by {
        assert(around_list(w, h, y, x).contains(around_list(w, h, y, x)[k]));
        lemma_around_upto_contains(w, h, y, x, 9, around_list(w, h, y, x)[k]);
    }
}

/// The grid of one game: cells in row-major order, `width * height` of them,
/// with dimensions fixed for the session.
#[derive(Clone)]
pub struct Board {
    pub cells: Vec<Cell>,
    pub width: usize,
    pub height: usize,
}

impl Board {
    /// Dimensions are positive and small enough that every flat index and
    /// every screen coordinate computation fits its machine type, storage
    /// matches the dimensions, and every adjacency count is at most eight.
    pub open spec fn wf(self) -> bool {
        &&& 1 <= self.width <= 0x1000
        &&& 1 <= self.height <= 0x1000
        &&& self.cells@.len() == self.width * self.height
        &&& forall|i: int| 0 <= i < self.cells@.len() ==> (#[trigger] self.cells@[i]).wf()
    }

    /// The row-major flat index of a position.
    pub open spec fn flat(self, p: (int, int)) -> int {
        p.0 * (self.width as int) + p.1
    }

    /// The cell at a position.
    pub open spec fn at(self, p: (int, int)) -> Cell {
        self.cells@[self.flat(p)]
    }

    pub open spec fn pos_in_grid(self, p: (int, int)) -> bool {
        in_grid(self.width as int, self.height as int, p)
    }

    /// Flat indices of on-board positions stay inside the storage and are
    /// distinct for distinct positions.
    pub proof fn lemma_flat(self, p: (int, int), q: (int, int))
        requires
            self.wf(),
            self.pos_in_grid(p),
            self.pos_in_grid(q),
        ensures
            0 <= self.flat(p) < self.cells@.len(),
            self.flat(p) == self.flat(q) ==> p == q,
    {
        let w = self.width as int;
        let h = self.height as int;
        assert(0 <= p.0 * w + p.1 < h * w) by (nonlinear_arith)
            requires
                0 <= p.0 < h,
                0 <= p.1 < w,
        ;
        assert(p.0 * w + p.1 == q.0 * w + q.1 ==> p.0 == q.0 && p.1 == q.1) by (nonlinear_arith)
            requires
                0 <= p.0 < h,
                0 <= p.1 < w,
                0 <= q.0 < h,
                0 <= q.1 < w,
        ;
        assert(h * w == w * h) by (nonlinear_arith);
    }

    /// A fresh board: every cell hidden, empty, unflagged, unselected.
    pub fn new(width: usize, height: usize) -> (b: Board)
        requires
            1 <= width <= 0x1000,
            1 <= height <= 0x1000,
        ensures
            b.wf(),
            b.width == width,
            b.height == height,
            forall|i: int| 0 <= i < b.cells@.len() ==> b.cells@[i] == (Cell {
                hidden: true,
                content: CellContent::Empty(0u8),
                flagged: false,
                selected: false,
            }),
    {
        assert(width * height <= 0x1000000) by (nonlinear_arith)
            requires
                width <= 0x1000,
                height <= 0x1000,
        ;
        let total: usize = width * height;
        let mut cells: Vec<Cell> = Vec::new();
        let mut i: usize = 0;
        while i < total
            invariant
                i <= total,
                cells@.len() == i,
                forall|j: int| 0 <= j < i ==> cells@[j] == (Cell {
                    hidden: true,
                    content: CellContent::Empty(0u8),
                    flagged: false,
                    selected: false,
                }),
            decreases total - i,
        {
            cells.push(Cell::new());
            i = i + 1;
        }
        Board { cells, width, height }
    }

    /// The flat storage index of an on-board position.
    pub fn flat_index(&self, y: usize, x: usize) -> (i: usize)
        requires
            self.wf(),
            self.pos_in_grid((y as int, x as int)),
        ensures
            i == self.flat((y as int, x as int)),
            i < self.cells@.len(),
    {
        proof {
            self.lemma_flat((y as int, x as int), (y as int, x as int));
            assert((y as int) * (self.width as int) + (x as int) < 0x1000000) by (nonlinear_arith)
                requires
                    0 <= (y as int) && (y as int) < (self.height as int),
                    0 <= (x as int) && (x as int) < (self.width as int),
                    (self.width as int) <= 0x1000,
                    (self.height as int) <= 0x1000,
            ;
        }
        y * self.width + x
    }

    /// Reads the cell at an on-board position.
    pub fn get(&self, y: usize, x: usize) -> (c: Cell)
        requires
            self.wf(),
            self.pos_in_grid((y as int, x as int)),
        ensures
            c == self.at((y as int, x as int)),
    {
        let i = self.flat_index(y, x);
        self.cells[i]
    }

    /// Replaces the cell at an on-board position.
    pub fn set(&mut self, y: usize, x: usize, c: Cell)
        requires
            old(self).wf(),
            old(self).pos_in_grid((y as int, x as int)),
            c.wf(),
        ensures
            final(self).wf(),
            final(self).width == old(self).width,
            final(self).height == old(self).height,
            final(self).cells@ == old(self).cells@.update(
                old(self).flat((y as int, x as int)),
                c,
            ),
    {
        let i = self.flat_index(y, x);
        self.cells.set(i, c);
    }
}

/// Appends `(y, x)` when it lies on a `w` by `h` board; the candidate comes
/// in signed form so off-board block positions can be offered safely.
fn push_if_in(v: &mut Vec<(usize, usize)>, w: usize, h: usize, y: i64, x: i64)
    requires
        w <= 0x1000,
        h <= 0x1000,
    ensures
        poss_view(final(v)@) == poss_view(old(v)@) + maybe_pos(
            w as int,
            h as int,
            y as int,
            x as int,
        ),
{
    if 0 <= y && y < h as i64 && 0 <= x && x < w as i64 {
        v.push((y as usize, x as usize));
        assert(poss_view(v@) =~= poss_view(old(v)@) + maybe_pos(
            w as int,
            h as int,
            y as int,
            x as int,
        ));
    } else {
        assert(poss_view(v@) =~= poss_view(old(v)@) + maybe_pos(
            w as int,
            h as int,
            y as int,
            x as int,
        ));
    }
}

/// The positions of the 3-by-3 block around `coords` (given as `[row,
/// column]`) that lie on the board, in row-major order, the centre included.
pub fn get_around_cell_coord_only(coords: [usize; 2], board: &Board) -> (r: Vec<(usize, usize)>)
    requires
        board.wf(),
        board.pos_in_grid((coords[0] as int, coords[1] as int)),
    ensures
        poss_view(r@) == around_list(
            board.width as int,
            board.height as int,
            coords[0] as int,
            coords[1] as int,
        ),
{
    let y = coords[0] as i64;
    let x = coords[1] as i64;
    let w = board.width;
    let h = board.height;
    let ghost wi = w as int;
    let ghost hi = h as int;
    let ghost yi = coords[0] as int;
    let ghost xi = coords[1] as int;
    let mut v: Vec<(usize, usize)> = Vec::new();
    assert(poss_view(v@) =~= around_upto(wi, hi, yi, xi, 0));
    push_if_in(&mut v, w, h, y - 1, x - 1);
    assert(poss_view(v@) =~= around_upto(wi, hi, yi, xi, 1));
    push_if_in(&mut v, w, h, y - 1, x);
    assert(poss_view(v@) =~= around_upto(wi, hi, yi, xi, 2));
    push_if_in(&mut v, w, h, y - 1, x + 1);
    assert(poss_view(v@) =~= around_upto(wi, hi, yi, xi, 3));
    push_if_in(&mut v, w, h, y, x - 1);
    assert(poss_view(v@) =~= around_upto(wi, hi, yi, xi, 4));
    push_if_in(&mut v, w, h, y, x);
    assert(poss_view(v@) =~= around_upto(wi, hi, yi, xi, 5));
    push_if_in(&mut v, w, h, y, x + 1);
    assert(poss_view(v@) =~= around_upto(wi, hi, yi, xi, 6));
    push_if_in(&mut v, w, h, y + 1, x - 1);
    assert(poss_view(v@) =~= around_upto(wi, hi, yi, xi, 7));
    push_if_in(&mut v, w, h, y + 1, x);
    assert(poss_view(v@) =~= around_upto(wi, hi, yi, xi, 8));
    push_if_in(&mut v, w, h, y + 1, x + 1);
    assert(poss_view(v@) =~= around_upto(wi, hi, yi, xi, 9));
    v
}

/// The cells of the 3-by-3 block around `coords`, each with its content and
/// its position, in row-major order, the centre included.
pub fn get_around_cell(coords: [usize; 2], board: &Board) -> (r: Vec<(CellContent, usize, usize)>)
    requires
        board.wf(),
        board.pos_in_grid((coords[0] as int, coords[1] as int)),
    ensures
        r@.len() == around_list(
            board.width as int,
            board.height as int,
            coords[0] as int,
            coords[1] as int,
        ).len(),
        forall|k: int|
            0 <= k < r@.len() ==> {
                let p = around_list(
                    board.width as int,
                    board.height as int,
                    coords[0] as int,
                    coords[1] as int,
                )[k];
                (#[trigger] r@[k]).1 == p.0 && r@[k].2 == p.1 && r@[k].0 == board.at(p).content
            },
{
    let ghost al = around_list(
        board.width as int,
        board.height as int,
        coords[0] as int,
        coords[1] as int,
    );
    let ps = get_around_cell_coord_only(coords, board);
    let mut r: Vec<(CellContent, usize, usize)> = Vec::new();
    let mut k: usize = 0;
    while k < ps.len()
        invariant
            board.wf(),
            k <= ps.len(),
            poss_view(ps@) == al,
            al == around_list(
                board.width as int,
                board.height as int,
                coords[0] as int,
                coords[1] as int,
            ),
            r@.len() == k,
            forall|j: int|
                0 <= j < k ==> {
                    let p = al[j];
                    (#[trigger] r@[j]).1 == p.0 && r@[j].2 == p.1 && r@[j].0 == board.at(p).content
                },
        decreases ps.len() - k,
    {
        let p = ps[k];
        let py = p.0;
        let px = p.1;
        proof {
            assert(al[k as int] == pos_view(ps@[k as int]));
            assert(al.contains(al[k as int]));
            lemma_around_upto_contains(
                board.width as int,
                board.height as int,
                coords[0] as int,
                coords[1] as int,
                9,
                al[k as int],
            );
            assert(board.pos_in_grid((py as int, px as int)));
        }
        let c = board.get(py, px);
        r.push((c.content, py, px));
        k = k + 1;
    }
    r
}

} // verus!
