//! The flood-fill auto-reveal. Clicking a cell with no adjacent mines opens
//! every cell reachable through chains of such zero-hint cells, together
//! with the immediate non-mine border of that region. The traversal is
//! breadth first over a frontier queue with a visited list, so no position
//! is processed twice and the walk ends after at most one step per cell.
//!
//! The set of positions the walk visits is pinned down by the spec
//! functions below, which read only the board's contents; the executable
//! walk provably computes exactly that set, which is what makes the reveal
//! deterministic and idempotent.

use vstd::prelude::*;
use vstd::set_lib::lemma_len_subset;

use crate::board::{
    around_list, in_grid, lemma_add_contains, lemma_around_list_in_grid, pos_view, poss_view, Board,
    get_around_cell_coord_only,
};
use crate::cell::{Cell, CellContent};
use crate::screen::CellPos;

verus! {

/// A board reduced to what the walk reads: each cell's fixed content.
pub open spec fn contents_of(cells: Seq<Cell>) -> Seq<CellContent> {
    cells.map_values(|c: Cell| c.content)
}

pub open spec fn is_zero_at(grid: Seq<CellContent>, w: int, p: (int, int)) -> bool {
    grid[p.0 * w + p.1] == CellContent::Empty(0u8)
}

pub open spec fn is_mine_at(grid: Seq<CellContent>, w: int, p: (int, int)) -> bool {
    grid[p.0 * w + p.1] is Mine
}

/// One frontier cell's expansion, from block offset `j` on: every position
/// of its block not yet visited is marked visited, and the zero-hint ones
/// among them join the queue.
pub open spec fn flood_expand(
    grid: Seq<CellContent>,
    w: int,
    h: int,
    around: Seq<(int, int)>,
    j: int,
    visited: Seq<(int, int)>,
    queue: Seq<(int, int)>,
) -> (Seq<(int, int)>, Seq<(int, int)>)
    decreases around.len() - j,
        when 0 <= j <= around.len()
{
    if j == around.len() {
        (visited, queue)
    } else {
        let p = around[j];
        if visited.contains(p) {
            flood_expand(grid, w, h, around, j + 1, visited, queue)
        } else {
            let v2 = visited.push(p);
            let q2 = if is_zero_at(grid, w, p) {
                queue.push(p)
            } else {
                queue
            };
            flood_expand(grid, w, h, around, j + 1, v2, q2)
        }
    }
}

/// What the walk's state must satisfy for the traversal to be well defined.
pub open spec fn flood_inv(
    w: int,
    h: int,
    queue: Seq<(int, int)>,
    i: int,
    visited: Seq<(int, int)>,
) -> bool {
    &&& 1 <= w
    &&& 1 <= h
    &&& 0 <= i <= queue.len()
    &&& visited.no_duplicates()
    &&& forall|k: int| 0 <= k < visited.len() ==> in_grid(w, h, #[trigger] visited[k])
}

/// All positions of a set. Used to bound how long the visited list can grow.
pub open spec fn grid_positions(w: int, h: int) -> Set<(int, int)> {
    Set::new(|p: (int, int)| in_grid(w, h, p))
}

/// One row of the grid as a set of positions.
pub open spec fn row_positions(w: int, y: int) -> Set<(int, int)> {
    Set::new(|p: (int, int)| p.0 == y && 0 <= p.1 < w)
}

proof fn lemma_row_positions_size(w: int, y: int)
    requires
        0 <= w,
    ensures
        row_positions(w, y).finite(),
        row_positions(w, y).len() == w,
    decreases w,
{
    broadcast use vstd::set::group_set_axioms;

    if w == 0 {
        assert(row_positions(0, y) =~= Set::empty());
    } else {
        lemma_row_positions_size(w - 1, y);
        assert(row_positions(w, y) =~= row_positions(w - 1, y).insert((y, w - 1)));
        assert(!row_positions(w - 1, y).contains((y, w - 1)));
    }
}

/// A partial grid: the positions of the first `k` rows.
spec fn grid_upto(w: int, k: int) -> Set<(int, int)> {
    Set::new(|p: (int, int)| 0 <= p.0 < k && 0 <= p.1 < w)
}

proof fn lemma_grid_upto_size(w: int, k: int)
    requires
        0 <= w,
        0 <= k,
    ensures
        grid_upto(w, k).finite(),
        grid_upto(w, k).len() == k * w,
    decreases k,
{
    broadcast use vstd::set::group_set_axioms;

    if k == 0 {
        assert(grid_upto(w, 0) =~= Set::empty());
    } else {
        lemma_grid_upto_size(w, k - 1);
        lemma_row_positions_size(w, k - 1);
        assert(grid_upto(w, k) =~= grid_upto(w, k - 1) + row_positions(w, k - 1));
        assert(grid_upto(w, k - 1).disjoint(row_positions(w, k - 1)));
        vstd::set_lib::lemma_set_disjoint_lens(grid_upto(w, k - 1), row_positions(w, k - 1));
        assert(k * w == (k - 1) * w + w) by (nonlinear_arith);
    }
}

/// The whole grid is finite and holds `w * h` positions.
pub proof fn lemma_grid_positions_size(w: int, h: int)
    requires
        0 <= w,
        0 <= h,
    ensures
        grid_positions(w, h).finite(),
        grid_positions(w, h).len() == w * h,
{
    lemma_grid_upto_size(w, h);
    assert(grid_positions(w, h) =~= grid_upto(w, h));
    assert(h * w == w * h) by (nonlinear_arith);
}

/// A duplicate-free list of on-board positions cannot outgrow the grid.
pub proof fn lemma_grid_seq_card(w: int, h: int, s: Seq<(int, int)>)
    requires
        0 <= w,
        0 <= h,
        s.no_duplicates(),
        forall|k: int| 0 <= k < s.len() ==> in_grid(w, h, #[trigger] s[k]),
    ensures
        s.len() <= w * h,
{
    broadcast use vstd::set::group_set_axioms;

    s.unique_seq_to_set();
    lemma_grid_positions_size(w, h);
    assert(s.to_set().subset_of(grid_positions(w, h))) by {
        assert forall|p: (int, int)| s.to_set().contains(p) implies grid_positions(w, h).contains(
            p,
        ) by {
            let k = choose|k: int| 0 <= k < s.len() && s[k] == p;
        }
    }
    lemma_len_subset(s.to_set(), grid_positions(w, h));
}

proof fn lemma_push_no_dup(s: Seq<(int, int)>, p: (int, int))
    requires
        s.no_duplicates(),
        !s.contains(p),
    ensures
        s.push(p).no_duplicates(),
{
    assert forall|a: int, b: int| 0 <= a < b < s.push(p).len() implies s.push(p)[a] != s.push(
        p,
    )[b] by {
        if b == s.len() {
            if s.push(p)[a] == p {
                assert(s[a] == p);
            }
        }
    }
}

/// Expanding one frontier cell keeps the visited list duplicate free and on
/// the board, never shrinks either list, and grows the queue by at most as
/// much as the visited list.
pub proof fn lemma_flood_expand_props(
    grid: Seq<CellContent>,
    w: int,
    h: int,
    around: Seq<(int, int)>,
    j: int,
    visited: Seq<(int, int)>,
    queue: Seq<(int, int)>,
)
    requires
        0 <= j <= around.len(),
        forall|k: int| 0 <= k < around.len() ==> in_grid(w, h, #[trigger] around[k]),
        visited.no_duplicates(),
        forall|k: int| 0 <= k < visited.len() ==> in_grid(w, h, #[trigger] visited[k]),
    ensures
        ({
            let r = flood_expand(grid, w, h, around, j, visited, queue);
            &&& visited.len() <= r.0.len()
            &&& queue.len() <= r.1.len()
            &&& r.0.len() - visited.len() >= r.1.len() - queue.len()
            &&& r.0.no_duplicates()
            &&& forall|k: int| 0 <= k < r.0.len() ==> in_grid(w, h, #[trigger] r.0[k])
        }),
    decreases around.len() - j,
{
    if j < around.len() {
        let p = around[j];
        if visited.contains(p) {
            lemma_flood_expand_props(grid, w, h, around, j + 1, visited, queue);
        } else {
            lemma_push_no_dup(visited, p);
            let v2 = visited.push(p);
            let q2 = if is_zero_at(grid, w, p) {
                queue.push(p)
            } else {
                queue
            };
            lemma_flood_expand_props(grid, w, h, around, j + 1, v2, q2);
        }
    }
}

/// The full breadth-first walk: processes the queue from index `i`, each
/// step expanding one frontier cell, and returns the final visited list.
/// The walk is a function of the board contents alone.
pub open spec fn flood_visit(
    grid: Seq<CellContent>,
    w: int,
    h: int,
    queue: Seq<(int, int)>,
    i: int,
    visited: Seq<(int, int)>,
) -> Seq<(int, int)>
    decreases w * h - visited.len(), queue.len() - i,
        when flood_inv(w, h, queue, i, visited)
{
    if i == queue.len() {
        visited
    } else {
        let c = queue[i];
        let a = around_list(w, h, c.0, c.1);
        let r = flood_expand(grid, w, h, a, 0, visited, queue);
        proof {
            lemma_around_list_in_grid(w, h, c.0, c.1);
            lemma_flood_expand_props(grid, w, h, a, 0, visited, queue);
            lemma_grid_seq_card(w, h, r.0);
        }
        flood_visit(grid, w, h, r.1, i + 1, r.0)
    }
}

/// Every position the flood visits when the player clicks `start`: the full
/// walk seeded with `start` if it is an on-board zero-hint cell, and nothing
/// otherwise (a click elsewhere reveals at most the clicked cell itself).
pub open spec fn flood_visited(
    grid: Seq<CellContent>,
    w: int,
    h: int,
    start: (int, int),
) -> Seq<(int, int)> {
    if 1 <= w && 1 <= h && in_grid(w, h, start) && is_zero_at(grid, w, start) {
        flood_visit(grid, w, h, seq![start], 0, Seq::empty())
    } else {
        Seq::empty()
    }
}

/// Whether the flood seeded at `start` opens position `p`: the walk visits
/// it and it is not a mine. Mines are never opened by the flood.
pub open spec fn flood_opens(
    grid: Seq<CellContent>,
    w: int,
    h: int,
    start: (int, int),
    p: (int, int),
) -> bool {
    flood_visited(grid, w, h, start).contains(p) && !is_mine_at(grid, w, p)
}

/// How one flood-fill reveal relates a board to its successor: dimensions
/// and every cell's content, flag and cursor state are untouched, and a cell
/// is left hidden exactly when it was hidden and the flood does not open it.
pub open spec fn flood_reveal_rel(pre: Board, post: Board, start: (int, int)) -> bool {
    &&& post.width == pre.width
    &&& post.height == pre.height
    &&& post.cells@.len() == pre.cells@.len()
    &&& forall|i: int| 0 <= i < post.cells@.len() ==> {
        &&& (#[trigger] post.cells@[i]).content == pre.cells@[i].content
        &&& post.cells@[i].flagged == pre.cells@[i].flagged
        &&& post.cells@[i].selected == pre.cells@[i].selected
    }
    &&& forall|p: (int, int)|
        pre.pos_in_grid(p) ==> (#[trigger] post.at(p)).hidden == (pre.at(p).hidden && !flood_opens(
            contents_of(pre.cells@),
            pre.width as int,
            pre.height as int,
            start,
            p,
        ))
}

/// The filter that drops one position and keeps every other entry in place.
pub open spec fn ne_fn(p: (usize, usize)) -> spec_fn((usize, usize)) -> bool {
    |q: (usize, usize)| q != p
}

/// What the walk keeps of the remaining-safe list while `visited` names the
/// positions marked so far: everything but the visited non-mines.
pub(crate) open spec fn visit_keep_fn(grid: Seq<CellContent>, w: int, visited: Seq<(int, int)>) -> spec_fn(
    (usize, usize),
) -> bool {
    |q: (usize, usize)| !(visited.contains(pos_view(q)) && !is_mine_at(grid, w, pos_view(q)))
}

/// What one whole flood reveal keeps of the remaining-safe list: every
/// position the flood does not open.
pub open spec fn flood_keep_fn(pre: Board, start: (int, int)) -> spec_fn((usize, usize)) -> bool {
    |q: (usize, usize)| !flood_opens(
        contents_of(pre.cells@),
        pre.width as int,
        pre.height as int,
        start,
        pos_view(q),
    )
}

/// Pointwise-equal predicates filter a list identically.
pub(crate) proof fn lemma_filter_congruence<A>(s: Seq<A>, f: spec_fn(A) -> bool, g: spec_fn(A) -> bool)
    requires
        forall|x: A| #[trigger] f(x) == g(x),
    ensures
        s.filter(f) == s.filter(g),
    decreases s.len(),
{
    reveal(Seq::filter);
    if s.len() > 0 {
        lemma_filter_congruence(s.drop_last(), f, g);
        assert(f(s.last()) == g(s.last()));
    }
}

/// Filtering twice is one filter by the conjunction.
pub(crate) proof fn lemma_filter_compose<A>(
    s: Seq<A>,
    f: spec_fn(A) -> bool,
    g: spec_fn(A) -> bool,
    fg: spec_fn(A) -> bool,
)
    requires
        forall|x: A| #[trigger] fg(x) == (f(x) && g(x)),
    ensures
        s.filter(f).filter(g) == s.filter(fg),
    decreases s.len(),
{
    if s.len() == 0 {
        reveal(Seq::filter);
    } else {
        let s0 = s.drop_last();
        let e = s.last();
        lemma_filter_compose(s0, f, g, fg);
        assert(s0.push(e) =~= s);
        s0.lemma_filter_push(e, f);
        if f(e) {
            s0.filter(f).lemma_filter_push(e, g);
        }
        s0.lemma_filter_push(e, fg);
        assert(fg(e) == (f(e) && g(e)));
    }
}

/// Complementary filters partition a list: the kept and the dropped entries
/// together account for its whole length.
pub(crate) proof fn lemma_filter_split_len<A>(s: Seq<A>, f: spec_fn(A) -> bool, g: spec_fn(A) -> bool)
    requires
        forall|x: A| #[trigger] g(x) == !f(x),
    ensures
        s.filter(f).len() + s.filter(g).len() == s.len(),
    decreases s.len(),
{
    if s.len() == 0 {
        reveal(Seq::filter);
    } else {
        let s0 = s.drop_last();
        let e = s.last();
        lemma_filter_split_len(s0, f, g);
        assert(s0.push(e) =~= s);
        s0.lemma_filter_push(e, f);
        s0.lemma_filter_push(e, g);
        assert(g(e) == !f(e));
    }
}

/// A filter that keeps every element of a list leaves it unchanged.
pub(crate) proof fn lemma_filter_keeps_all<A>(s: Seq<A>, f: spec_fn(A) -> bool)
    requires
        forall|k: int| 0 <= k < s.len() ==> f(#[trigger] s[k]),
    ensures
        s.filter(f) == s,
    decreases s.len(),
{
    if s.len() == 0 {
        reveal(Seq::filter);
    } else {
        let s0 = s.drop_last();
        let e = s.last();
        lemma_filter_keeps_all(s0, f);
        assert(s0.push(e) =~= s);
        s0.lemma_filter_push(e, f);
        assert(f(e));
    }
}

proof fn lemma_poss_view_push(s: Seq<(usize, usize)>, p: (usize, usize))
    ensures
        poss_view(s.push(p)) == poss_view(s).push(pos_view(p)),
{
    assert(poss_view(s.push(p)) =~= poss_view(s).push(pos_view(p)));
}

/// Whether the list holds the given position.
fn contains_pos(v: &Vec<(usize, usize)>, p: (usize, usize)) -> (r: bool)
    ensures
        r == poss_view(v@).contains(pos_view(p)),
{
    let mut k: usize = 0;
    while k < v.len()
        invariant
            k <= v@.len(),
            forall|j: int| 0 <= j < k ==> poss_view(v@)[j] != pos_view(p),
        decreases v@.len() - k,
    {
        let q = v[k];
        if q.0 == p.0 && q.1 == p.1 {
            assert(poss_view(v@)[k as int] == pos_view(p));
            return true;
        }
        assert(poss_view(v@)[k as int] == pos_view(q));
        k = k + 1;
    }
    proof {
        if poss_view(v@).contains(pos_view(p)) {
            let j = choose|j: int|
                0 <= j < poss_view(v@).len() && poss_view(v@)[j] == pos_view(p);
        }
    }
    false
}

/// Removes the given position from a duplicate-free list, keeping every
/// other entry in its place; removing an absent position changes nothing.
pub(crate) fn remove_pos(v: &mut Vec<(usize, usize)>, p: (usize, usize))
    requires
        old(v)@.no_duplicates(),
    ensures
        final(v)@.no_duplicates(),
        forall|q: (usize, usize)| #[trigger]
            final(v)@.contains(q) <==> (old(v)@.contains(q) && q != p),
        final(v)@ == old(v)@.filter(ne_fn(p)),
{
    let mut out: Vec<(usize, usize)> = Vec::new();
    let mut k: usize = 0;
    while k < v.len()
        invariant
            v@ == old(v)@,
            v@.no_duplicates(),
            k <= v@.len(),
            out@.no_duplicates(),
            forall|q: (usize, usize)| #[trigger]
                out@.contains(q) <==> (v@.subrange(0, k as int).contains(q) && q != p),
            out@ == v@.subrange(0, k as int).filter(ne_fn(p)),
        decreases v@.len() - k,
    {
        let ghost pre = out@;
        let q = v[k];
        if !(q.0 == p.0 && q.1 == p.1) {
            proof {
                if out@.contains(q) {
                    let a = choose|a: int|
                        0 <= a < v@.subrange(0, k as int).len() && v@.subrange(0, k as int)[a] == q;
                    assert(v@[a] == v@[k as int]);
                }
            }
            out.push(q);
        }
        proof {
            assert(v@.subrange(0, k + 1) =~= v@.subrange(0, k as int).push(v@[k as int]));
            v@.subrange(0, k as int).lemma_filter_push(v@[k as int], ne_fn(p));
            assert(ne_fn(p)(v@[k as int]) == !(v@[k as int].0 == p.0 && v@[k as int].1 == p.1));
            assert forall|q2: (usize, usize)| #[trigger]
                out@.contains(q2) <==> (v@.subrange(0, k + 1).contains(q2) && q2 != p) by {
                lemma_add_contains(v@.subrange(0, k as int), seq![v@[k as int]], q2);
                assert(v@.subrange(0, k + 1) =~= v@.subrange(0, k as int) + seq![v@[k as int]]);
                assert(seq![v@[k as int]].contains(q2) <==> q2 == v@[k as int]) by {
                    if seq![v@[k as int]].contains(q2) {
                        assert(seq![v@[k as int]][choose|a: int|
                            0 <= a < 1 && seq![v@[k as int]][a] == q2] == q2);
                    } else {
                        assert(seq![v@[k as int]][0] == v@[k as int]);
                    }
                }
                if q2 == v@[k as int] && !(q2.0 == p.0 && q2.1 == p.1) {
                    assert(out@[out@.len() - 1] == q2);
                }
                if pre.contains(q2) {
                    let a = choose|a: int| 0 <= a < pre.len() && pre[a] == q2;
                    assert(out@[a] == q2);
                }
                if out@.contains(q2) && !pre.contains(q2) {
                    let a = choose|a: int| 0 <= a < out@.len() && out@[a] == q2;
                    assert(a == out@.len() - 1 || pre[a] == q2);
                }
            }
        }
        k = k + 1;
    }
    proof {
        assert(v@.subrange(0, v@.len() as int) =~= v@);
    }
    *v = out;
}

/// Runs the flood-fill reveal for a click on `cell_pos`: opens exactly the
/// positions the walk visits, mines excepted, and filters exactly those
/// positions out of the remaining-safe list, the surviving entries keeping
/// their order. Nothing else is touched, and a second invocation from the
/// resulting state would change nothing, since the walk depends only on the
/// board's contents, which the reveal leaves as they are.
pub fn deobfuscate_board(board: &mut Board, cell_pos: CellPos, hidden_cells: &mut Vec<(usize, usize)>)
    requires
        old(board).wf(),
        0 <= cell_pos.x < old(board).width,
        0 <= cell_pos.y < old(board).height,
        old(hidden_cells)@.no_duplicates(),
    ensures
        final(board).wf(),
        flood_reveal_rel(*old(board), *final(board), (cell_pos.y as int, cell_pos.x as int)),
        final(hidden_cells)@.no_duplicates(),
        forall|q: (usize, usize)| #[trigger]
            final(hidden_cells)@.contains(q) <==> (old(hidden_cells)@.contains(q) && !flood_opens(
                contents_of(old(board).cells@),
                old(board).width as int,
                old(board).height as int,
                (cell_pos.y as int, cell_pos.x as int),
                pos_view(q),
            )),
        final(hidden_cells)@ == old(hidden_cells)@.filter(
            flood_keep_fn(*old(board), (cell_pos.y as int, cell_pos.x as int)),
        ),
{
    let w = board.width;
    let h = board.height;
    let ghost wi = w as int;
    let ghost hi = h as int;
    let ghost g0 = contents_of(board.cells@);
    let ghost start = (cell_pos.y as int, cell_pos.x as int);
    let sy = cell_pos.y as usize;
    let sx = cell_pos.x as usize;

    let mut queue: Vec<(usize, usize)> = Vec::new();
    let start_cell = board.get(sy, sx);
    if matches!(start_cell.content, CellContent::Empty(0u8)) {
        queue.push((sy, sx));
    }
    let mut visited: Vec<(usize, usize)> = Vec::new();
    let ghost target = flood_visited(g0, wi, hi, start);
    proof {
        board.lemma_flat(start, start);
        assert(g0[board.flat(start)] == board.cells@[board.flat(start)].content);
        if is_zero_at(g0, wi, start) {
            assert(poss_view(queue@) =~= seq![start]);
        } else {
            assert(poss_view(queue@) =~= Seq::<(int, int)>::empty());
        }
        assert(poss_view(visited@) =~= Seq::<(int, int)>::empty());
        assert(flood_visit(g0, wi, hi, poss_view(queue@), 0, poss_view(visited@)) == target);
        assert forall|k: int| 0 <= k < hidden_cells@.len() implies visit_keep_fn(
            g0,
            wi,
            poss_view(visited@),
        )(#[trigger] hidden_cells@[k]) by {
            assert(poss_view(visited@).len() == 0);
        }
        lemma_filter_keeps_all(hidden_cells@, visit_keep_fn(g0, wi, poss_view(visited@)));
    }

    let mut i: usize = 0;
    while i < queue.len()
        invariant
            board.wf(),
            board.width == w,
            board.height == h,
            1 <= w <= 0x1000,
            1 <= h <= 0x1000,
            wi == w as int,
            hi == h as int,
            start == (cell_pos.y as int, cell_pos.x as int),
            g0 == contents_of(old(board).cells@),
            contents_of(board.cells@) == g0,
            g0.len() == board.cells@.len(),
            board.cells@.len() == old(board).cells@.len(),
            i <= queue@.len(),
            poss_view(visited@).no_duplicates(),
            forall|k: int| 0 <= k < visited@.len() ==> in_grid(
                wi,
                hi,
                #[trigger] poss_view(visited@)[k],
            ),
            forall|k: int| 0 <= k < queue@.len() ==> in_grid(
                wi,
                hi,
                #[trigger] poss_view(queue@)[k],
            ),
            flood_visit(g0, wi, hi, poss_view(queue@), i as int, poss_view(visited@)) == target,
            target == flood_visited(g0, wi, hi, start),
            forall|k: int| 0 <= k < board.cells@.len() ==> {
                &&& (#[trigger] board.cells@[k]).content == old(board).cells@[k].content
                &&& board.cells@[k].flagged == old(board).cells@[k].flagged
                &&& board.cells@[k].selected == old(board).cells@[k].selected
            },
            forall|p: (int, int)|
                in_grid(wi, hi, p) ==> (#[trigger] board.at(p)).hidden == (old(board).at(p).hidden
                    && !(poss_view(visited@).contains(p) && !is_mine_at(g0, wi, p))),
            hidden_cells@.no_duplicates(),
            forall|q: (usize, usize)| #[trigger]
                hidden_cells@.contains(q) <==> (old(hidden_cells)@.contains(q) && !(poss_view(
                    visited@,
                ).contains(pos_view(q)) && !is_mine_at(g0, wi, pos_view(q)))),
            hidden_cells@ == old(hidden_cells)@.filter(
                visit_keep_fn(g0, wi, poss_view(visited@)),
            ),
        decreases wi * hi - visited@.len(), queue@.len() - i,
    {
        let c = queue[i];
        let ghost a_spec = around_list(wi, hi, c.0 as int, c.1 as int);
        let ghost v_enter = poss_view(visited@);
        let ghost q_enter = poss_view(queue@);
        let ghost i_enter = i as int;
        proof {
            assert(pos_view(queue@[i as int]) == poss_view(queue@)[i as int]);
            assert(in_grid(wi, hi, poss_view(queue@)[i as int]));
            assert(pos_view(c) == (c.0 as int, c.1 as int));
            assert(board.pos_in_grid((c.0 as int, c.1 as int)));
            lemma_around_list_in_grid(wi, hi, c.0 as int, c.1 as int);
        }
        let around = get_around_cell_coord_only([c.0, c.1], board);
        let ghost pair = flood_expand(g0, wi, hi, a_spec, 0, v_enter, q_enter);
        let mut j: usize = 0;
        while j < around.len()
            invariant
                board.wf(),
                board.width == w,
                board.height == h,
                1 <= w <= 0x1000,
                1 <= h <= 0x1000,
                wi == w as int,
                hi == h as int,
                g0 == contents_of(old(board).cells@),
                contents_of(board.cells@) == g0,
                g0.len() == board.cells@.len(),
                board.cells@.len() == old(board).cells@.len(),
                j <= around@.len(),
                poss_view(around@) == a_spec,
                forall|k: int| 0 <= k < a_spec.len() ==> in_grid(wi, hi, #[trigger] a_spec[k]),
                poss_view(visited@).no_duplicates(),
                forall|k: int| 0 <= k < visited@.len() ==> in_grid(
                    wi,
                    hi,
                    #[trigger] poss_view(visited@)[k],
                ),
                forall|k: int| 0 <= k < queue@.len() ==> in_grid(
                    wi,
                    hi,
                    #[trigger] poss_view(queue@)[k],
                ),
                flood_expand(g0, wi, hi, a_spec, j as int, poss_view(visited@), poss_view(queue@))
                    == pair,
                forall|k: int| 0 <= k < board.cells@.len() ==> {
                    &&& (#[trigger] board.cells@[k]).content == old(board).cells@[k].content
                    &&& board.cells@[k].flagged == old(board).cells@[k].flagged
                    &&& board.cells@[k].selected == old(board).cells@[k].selected
                },
                forall|p: (int, int)|
                    in_grid(wi, hi, p) ==> (#[trigger] board.at(p)).hidden == (old(
                        board,
                    ).at(p).hidden && !(poss_view(visited@).contains(p) && !is_mine_at(
                        g0,
                        wi,
                        p,
                    ))),
                hidden_cells@.no_duplicates(),
                forall|q: (usize, usize)| #[trigger]
                    hidden_cells@.contains(q) <==> (old(hidden_cells)@.contains(q) && !(poss_view(
                        visited@,
                    ).contains(pos_view(q)) && !is_mine_at(g0, wi, pos_view(q)))),
                hidden_cells@ == old(hidden_cells)@.filter(
                    visit_keep_fn(g0, wi, poss_view(visited@)),
                ),
            decreases around@.len() - j,
        {
            let p = around[j];
            proof {
                assert(pos_view(around@[j as int]) == a_spec[j as int]);
                assert(in_grid(wi, hi, pos_view(p)));
            }
            if !contains_pos(&visited, p) {
                let ghost v_pre = poss_view(visited@);
                visited.push(p);
                proof {
                    lemma_poss_view_push(visited@.drop_last(), p);
                    assert(visited@.drop_last().push(p) =~= visited@);
                    assert(poss_view(visited@) == v_pre.push(pos_view(p)));
                    lemma_push_no_dup(v_pre, pos_view(p));
                }
                let cell = board.get(p.0, p.1);
                proof {
                    board.lemma_flat(pos_view(p), pos_view(p));
                    assert(g0[board.flat(pos_view(p))] == board.cells@[board.flat(
                        pos_view(p),
                    )].content);
                }
                match cell.content {
                    CellContent::Mine => {
                        proof {
                            assert forall|p2: (int, int)| in_grid(wi, hi, p2) implies (
                            #[trigger] board.at(p2)).hidden == (old(board).at(p2).hidden && !(
                            poss_view(visited@).contains(p2) && !is_mine_at(g0, wi, p2))) by {
                                lemma_add_contains(v_pre, seq![pos_view(p)], p2);
                                assert(poss_view(visited@) =~= v_pre + seq![pos_view(p)]);
                                if p2 == pos_view(p) {
                                    assert(is_mine_at(g0, wi, p2));
                                } else {
                                    if (v_pre + seq![pos_view(p)]).contains(p2)
                                        && !v_pre.contains(p2) {
                                        assert(seq![pos_view(p)][0] == pos_view(p));
                                        let a = choose|a: int|
                                            0 <= a < 1 && seq![pos_view(p)][a] == p2;
                                        assert(p2 == pos_view(p));
                                    }
                                }
                            }
                            assert forall|q2: (usize, usize)| #[trigger]
                                hidden_cells@.contains(q2) <==> (old(hidden_cells)@.contains(q2)
                                && !(poss_view(visited@).contains(pos_view(q2)) && !is_mine_at(
                                g0,
                                wi,
                                pos_view(q2),
                            ))) by {
                                lemma_add_contains(v_pre, seq![pos_view(p)], pos_view(q2));
                                assert(poss_view(visited@) =~= v_pre + seq![pos_view(p)]);
                                if pos_view(q2) == pos_view(p) {
                                    assert(is_mine_at(g0, wi, pos_view(q2)));
                                } else {
                                    if seq![pos_view(p)].contains(pos_view(q2)) {
                                        let a = choose|a: int|
                                            0 <= a < 1 && seq![pos_view(p)][a] == pos_view(q2);
                                    }
                                }
                            }
                            assert forall|q2: (usize, usize)| #[trigger] visit_keep_fn(
                                g0,
                                wi,
                                poss_view(visited@),
                            )(q2) == visit_keep_fn(g0, wi, v_pre)(q2) by {
                                lemma_add_contains(v_pre, seq![pos_view(p)], pos_view(q2));
                                assert(poss_view(visited@) =~= v_pre + seq![pos_view(p)]);
                                if pos_view(q2) == pos_view(p) {
                                    assert(is_mine_at(g0, wi, pos_view(q2)));
                                } else {
                                    if seq![pos_view(p)].contains(pos_view(q2)) {
                                        let a = choose|a: int|
                                            0 <= a < 1 && seq![pos_view(p)][a] == pos_view(q2);
                                    }
                                }
                            }
                            lemma_filter_congruence(
                                old(hidden_cells)@,
                                visit_keep_fn(g0, wi, v_pre),
                                visit_keep_fn(g0, wi, poss_view(visited@)),
                            );
                        }
                    },
                    CellContent::Empty(n) => {
                        let ghost b_pre = *board;
                        let ghost hc_pre = hidden_cells@;
                        board.set(p.0, p.1, Cell { hidden: false, ..cell });
                        remove_pos(hidden_cells, p);
                        if n == 0 {
                            let ghost q_before = poss_view(queue@);
                            queue.push(p);
                            proof {
                                lemma_poss_view_push(queue@.drop_last(), p);
                                assert(queue@.drop_last().push(p) =~= queue@);
                                assert(poss_view(queue@) == q_before.push(pos_view(p)));
                            }
                        }
                        proof {
                            assert(contents_of(board.cells@) =~= g0);
                            assert forall|p2: (int, int)| in_grid(wi, hi, p2) implies (
                            #[trigger] board.at(p2)).hidden == (old(board).at(p2).hidden && !(
                            poss_view(visited@).contains(p2) && !is_mine_at(g0, wi, p2))) by {
                                lemma_add_contains(v_pre, seq![pos_view(p)], p2);
                                assert(poss_view(visited@) =~= v_pre + seq![pos_view(p)]);
                                assert(b_pre.at(p2).hidden == (old(board).at(p2).hidden && !(
                                v_pre.contains(p2) && !is_mine_at(g0, wi, p2))));
                                board.lemma_flat(p2, pos_view(p));
                                if p2 == pos_view(p) {
                                    assert(poss_view(visited@).contains(p2)) by {
                                        assert(poss_view(visited@)[poss_view(visited@).len() - 1]
                                            == pos_view(p));
                                    }
                                    assert(!is_mine_at(g0, wi, p2));
                                    assert(!board.at(p2).hidden);
                                } else {
                                    assert(board.flat(p2) != board.flat(pos_view(p)));
                                    assert(board.at(p2) == b_pre.at(p2));
                                    if (v_pre + seq![pos_view(p)]).contains(p2)
                                        && !v_pre.contains(p2) {
                                        assert(seq![pos_view(p)][0] == pos_view(p));
                                        let a = choose|a: int|
                                            0 <= a < 1 && seq![pos_view(p)][a] == p2;
                                        assert(p2 == pos_view(p));
                                    }
                                }
                            }
                            assert forall|q2: (usize, usize)| #[trigger]
                                hidden_cells@.contains(q2) <==> (old(hidden_cells)@.contains(q2)
                                && !(poss_view(visited@).contains(pos_view(q2)) && !is_mine_at(
                                g0,
                                wi,
                                pos_view(q2),
                            ))) by {
                                lemma_add_contains(v_pre, seq![pos_view(p)], pos_view(q2));
                                assert(poss_view(visited@) =~= v_pre + seq![pos_view(p)]);
                                assert(hc_pre.contains(q2) <==> (old(hidden_cells)@.contains(q2)
                                && !(v_pre.contains(pos_view(q2)) && !is_mine_at(
                                g0,
                                wi,
                                pos_view(q2),
                            ))));
                                assert(hidden_cells@.contains(q2) <==> (hc_pre.contains(q2) && q2
                                    != p));
                                if pos_view(q2) == pos_view(p) {
                                    assert(q2 == p);
                                    assert(poss_view(visited@).contains(pos_view(q2))) by {
                                        assert(poss_view(visited@)[poss_view(visited@).len() - 1]
                                            == pos_view(p));
                                    }
                                    assert(!is_mine_at(g0, wi, pos_view(q2)));
                                } else {
                                    assert(q2 != p);
                                    if seq![pos_view(p)].contains(pos_view(q2)) {
                                        assert(seq![pos_view(p)][0] == pos_view(p));
                                        let a = choose|a: int|
                                            0 <= a < 1 && seq![pos_view(p)][a] == pos_view(q2);
                                    }
                                }
                            }
                            assert forall|q2: (usize, usize)| #[trigger] visit_keep_fn(
                                g0,
                                wi,
                                poss_view(visited@),
                            )(q2) == (visit_keep_fn(g0, wi, v_pre)(q2) && ne_fn(p)(q2)) by {
                                lemma_add_contains(v_pre, seq![pos_view(p)], pos_view(q2));
                                assert(poss_view(visited@) =~= v_pre + seq![pos_view(p)]);
                                if pos_view(q2) == pos_view(p) {
                                    assert(q2 == p);
                                    assert(poss_view(visited@).contains(pos_view(q2))) by {
                                        assert(poss_view(visited@)[poss_view(visited@).len() - 1]
                                            == pos_view(p));
                                    }
                                    assert(!is_mine_at(g0, wi, pos_view(q2)));
                                } else {
                                    assert(q2 != p);
                                    if seq![pos_view(p)].contains(pos_view(q2)) {
                                        assert(seq![pos_view(p)][0] == pos_view(p));
                                        let a = choose|a: int|
                                            0 <= a < 1 && seq![pos_view(p)][a] == pos_view(q2);
                                    }
                                }
                            }
                            lemma_filter_compose(
                                old(hidden_cells)@,
                                visit_keep_fn(g0, wi, v_pre),
                                ne_fn(p),
                                visit_keep_fn(g0, wi, poss_view(visited@)),
                            );
                        }
                    },
                }
            }
            proof {
                assert(flood_expand(
                    g0,
                    wi,
                    hi,
                    a_spec,
                    j + 1,
                    poss_view(visited@),
                    poss_view(queue@),
                ) == pair);
            }
            j = j + 1;
        }
        proof {
            assert((poss_view(visited@), poss_view(queue@)) == pair);
            lemma_flood_expand_props(g0, wi, hi, a_spec, 0, v_enter, q_enter);
            lemma_grid_seq_card(wi, hi, poss_view(visited@));
            assert(flood_visit(g0, wi, hi, q_enter, i_enter, v_enter) == flood_visit(
                g0,
                wi,
                hi,
                pair.1,
                i_enter + 1,
                pair.0,
            ));
        }
        i = i + 1;
    }
    proof {
        assert(poss_view(visited@) == target);
        assert forall|q: (usize, usize)| #[trigger] visit_keep_fn(g0, wi, poss_view(visited@))(q)
            == flood_keep_fn(*old(board), start)(q) by {}
        lemma_filter_congruence(
            old(hidden_cells)@,
            visit_keep_fn(g0, wi, poss_view(visited@)),
            flood_keep_fn(*old(board), start),
        );
    }
}

/// Two boards with the same contents flood identically.
pub proof fn lemma_contents_congruence(c1: Seq<Cell>, c2: Seq<Cell>)
    requires
        c1.len() == c2.len(),
        forall|i: int| 0 <= i < c1.len() ==> (#[trigger] c1[i]).content == c2[i].content,
    ensures
        contents_of(c1) == contents_of(c2),
{
    assert(contents_of(c1) =~= contents_of(c2));
}

/// Flood-fill idempotence: a reveal leaves the board's contents alone and
/// the walk reads only those contents, so revealing the same cell again
/// from the resulting state changes no cell state — neither on the board
/// nor in the remaining-safe list.
pub proof fn lemma_flood_reveal_idempotent(
    b0: Board,
    b1: Board,
    b2: Board,
    hc0: Seq<(usize, usize)>,
    hc1: Seq<(usize, usize)>,
    hc2: Seq<(usize, usize)>,
    start: (int, int),
)
    requires
        b0.wf(),
        flood_reveal_rel(b0, b1, start),
        flood_reveal_rel(b1, b2, start),
        hc1 == hc0.filter(flood_keep_fn(b0, start)),
        hc2 == hc1.filter(flood_keep_fn(b1, start)),
    ensures
        b2.width == b1.width,
        b2.height == b1.height,
        b2.cells@ == b1.cells@,
        hc2 == hc1,
{
    lemma_contents_congruence(b1.cells@, b0.cells@);
    assert forall|q: (usize, usize)| #[trigger] flood_keep_fn(b1, start)(q) == flood_keep_fn(
        b0,
        start,
    )(q) by {}
    lemma_filter_congruence(hc1, flood_keep_fn(b1, start), flood_keep_fn(b0, start));
    assert forall|q: (usize, usize)| #[trigger] flood_keep_fn(b0, start)(q) == (flood_keep_fn(
        b0,
        start,
    )(q) && flood_keep_fn(b0, start)(q)) by {}
    lemma_filter_compose(
        hc0,
        flood_keep_fn(b0, start),
        flood_keep_fn(b0, start),
        flood_keep_fn(b0, start),
    );
    assert forall|i: int| 0 <= i < b2.cells@.len() implies b2.cells@[i] == b1.cells@[i] by {
        let w = b0.width as int;
        let h = b0.height as int;
        vstd::arithmetic::div_mod::lemma_fundamental_div_mod(i, w);
        vstd::arithmetic::div_mod::lemma_mod_bound(i, w);
        assert(i < w * h) by (nonlinear_arith)
            requires
                i < b0.cells@.len(),
                b0.cells@.len() == b0.width * b0.height,
                w == b0.width as int,
                h == b0.height as int,
        ;
        vstd::arithmetic::div_mod::lemma_multiply_divide_lt(i, w, h);
        let p = (i / w, i % w);
        assert(in_grid(w, h, p));
        assert(b0.flat(p) == i) by (nonlinear_arith)
            requires
                p == (i / w, i % w),
                w * (i / w) + i % w == i,
                b0.flat(p) == p.0 * w + p.1,
        ;
        assert(b1.flat(p) == i && b2.flat(p) == i);
        assert(b2.at(p).hidden == b1.at(p).hidden);
    }
    assert(b2.cells@ =~= b1.cells@);
}

} // verus!
