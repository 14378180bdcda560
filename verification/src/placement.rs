//! Mine placement and hint numbering. Mines are seeded uniformly at random,
//! without replacement, among the cells outside the 3-by-3 safe zone around
//! the player's first selection; afterwards every safe cell receives, once
//! and for all, the count of mines among its neighbours.

use vstd::prelude::*;

use rand::seq::SliceRandom;

use crate::board::{around_list, in_grid, pos_view, Board};
use crate::board::{get_around_cell, lemma_around_list_contains, lemma_around_upto_len};
use crate::cell::{Cell, CellContent};
use crate::screen::CellPos;
use crate::settings::Settings;

verus! {

/// The 3-by-3 safe zone around the first click: positions at Chebyshev
/// distance at most one from `(fy, fx)`, which mine placement must avoid.
pub open spec fn in_safe_zone(fy: int, fx: int, p: (int, int)) -> bool {
    fy - 1 <= p.0 <= fy + 1 && fx - 1 <= p.1 <= fx + 1
}

/// How many mines sit in the first `k` cells of row-major storage.
pub open spec fn mines_in_prefix(cells: Seq<Cell>, k: int) -> int
    decreases k,
        when 0 <= k <= cells.len()
{
    if k == 0 {
        0
    } else {
        mines_in_prefix(cells, k - 1) + if cells[k - 1].is_mine() {
            1int
        } else {
            0int
        }
    }
}

/// How many mines a board holds in all.
pub open spec fn total_mines(cells: Seq<Cell>) -> int {
    mines_in_prefix(cells, cells.len() as int)
}

/// A board without mines counts zero in every prefix.
pub proof fn lemma_mines_in_prefix_none(cells: Seq<Cell>, k: int)
    requires
        0 <= k <= cells.len(),
        forall|i: int| 0 <= i < k ==> !(#[trigger] cells[i]).is_mine(),
    ensures
        mines_in_prefix(cells, k) == 0,
    decreases k,
{
    if k > 0 {
        lemma_mines_in_prefix_none(cells, k - 1);
    }
}

/// Replacing one cell changes the prefix count by that cell's own
/// contribution, and only within prefixes that cover it.
pub proof fn lemma_mines_in_prefix_update(cells: Seq<Cell>, k: int, i: int, c: Cell)
    requires
        0 <= k <= cells.len(),
        0 <= i < cells.len(),
    ensures
        mines_in_prefix(cells.update(i, c), k) == mines_in_prefix(cells, k) + if i < k {
            (if c.is_mine() {
                1int
            } else {
                0int
            }) - (if cells[i].is_mine() {
                1int
            } else {
                0int
            })
        } else {
            0int
        },
    decreases k,
{
    if k > 0 {
        lemma_mines_in_prefix_update(cells, k - 1, i, c);
    }
}

/// The prefix count reads only each cell's mine-ness: two boards that agree
/// on which cells are mines agree on the count.
pub proof fn lemma_mines_in_prefix_congruence(c1: Seq<Cell>, c2: Seq<Cell>, k: int)
    requires
        0 <= k <= c1.len(),
        c1.len() == c2.len(),
        forall|i: int| 0 <= i < c1.len() ==> c1[i].is_mine() == c2[i].is_mine(),
    ensures
        mines_in_prefix(c1, k) == mines_in_prefix(c2, k),
    decreases k,
{
    if k > 0 {
        lemma_mines_in_prefix_congruence(c1, c2, k - 1);
    }
}

/// How many of the first `n` flat indices lie outside the safe zone around
/// `(fy, fx)` on a board `w` cells wide: the cells eligible to hold a mine.
pub open spec fn eligible_in_prefix(w: int, fy: int, fx: int, n: int) -> int
    decreases n,
        when 0 <= n && 1 <= w
{
    if n == 0 {
        0
    } else {
        eligible_in_prefix(w, fy, fx, n - 1) + if !in_safe_zone(fy, fx, ((n - 1) / w, (n - 1) % w)) {
            1int
        } else {
            0int
        }
    }
}

/// How many cells of a `w` by `h` board are eligible to hold a mine when the
/// first click fell on `(fy, fx)`.
pub open spec fn eligible_count(w: int, h: int, fy: int, fx: int) -> int {
    eligible_in_prefix(w, fy, fx, w * h)
}

/// The eligible count lies between zero and one less than the board size:
/// the clicked cell itself always sits in the safe zone.
pub proof fn lemma_eligible_in_prefix_bounds(w: int, fy: int, fx: int, n: int)
    requires
        1 <= w,
        0 <= n,
    ensures
        0 <= eligible_in_prefix(w, fy, fx, n) <= n,
    decreases n,
{
    if n > 0 {
        lemma_eligible_in_prefix_bounds(w, fy, fx, n - 1);
    }
}

proof fn lemma_eligible_in_prefix_skip(w: int, fy: int, fx: int, n: int, j: int)
    requires
        1 <= w,
        0 <= j < n,
        in_safe_zone(fy, fx, (j / w, j % w)),
    ensures
        eligible_in_prefix(w, fy, fx, n) <= n - 1,
    decreases n,
{
    if j == n - 1 {
        lemma_eligible_in_prefix_bounds(w, fy, fx, n - 1);
    } else {
        lemma_eligible_in_prefix_skip(w, fy, fx, n - 1, j);
    }
}

pub proof fn lemma_eligible_count_range(w: int, h: int, fy: int, fx: int)
    requires
        1 <= w,
        1 <= h,
        0 <= fy < h,
        0 <= fx < w,
    ensures
        0 <= eligible_count(w, h, fy, fx) <= w * h - 1,
{
    let j = fy * w + fx;
    assert(0 <= j < w * h) by (nonlinear_arith)
        requires
            0 <= fy < h,
            0 <= fx < w,
            1 <= w,
            j == fy * w + fx,
    ;
    assert(j / w == fy && j % w == fx) by (nonlinear_arith)
        requires
            0 <= fx < w,
            0 <= fy,
            j == fy * w + fx,
            1 <= w,
    ;
    lemma_eligible_in_prefix_bounds(w, fy, fx, w * h);
    lemma_eligible_in_prefix_skip(w, fy, fx, w * h, j);
}

/// The flat indices of the safe zone among the first `n`.
spec fn safe_idx_set(w: int, fy: int, fx: int, n: int) -> Set<int> {
    Set::new(|i: int| 0 <= i < n && in_safe_zone(fy, fx, (i / w, i % w)))
}

/// The eligible count is the prefix length less the safe indices in it.
proof fn lemma_eligible_safe_split(w: int, fy: int, fx: int, n: int)
    requires
        1 <= w,
        0 <= n,
    ensures
        safe_idx_set(w, fy, fx, n).finite(),
        eligible_in_prefix(w, fy, fx, n) == n - safe_idx_set(w, fy, fx, n).len(),
    decreases n,
{
    broadcast use vstd::set::group_set_axioms;

    if n == 0 {
        assert(safe_idx_set(w, fy, fx, 0) =~= Set::empty());
    } else {
        lemma_eligible_safe_split(w, fy, fx, n - 1);
        if in_safe_zone(fy, fx, ((n - 1) / w, (n - 1) % w)) {
            assert(safe_idx_set(w, fy, fx, n) =~= safe_idx_set(w, fy, fx, n - 1).insert(n - 1));
            assert(!safe_idx_set(w, fy, fx, n - 1).contains(n - 1));
        } else {
            assert(safe_idx_set(w, fy, fx, n) =~= safe_idx_set(w, fy, fx, n - 1));
        }
    }
}

/// The safe zone holds at most nine cells, so at least `w * h - 9` cells
/// are always eligible: any configuration with `mines + 9 <= w * h` gets
/// exactly its configured number of mines placed.
pub proof fn lemma_eligible_count_lower(w: int, h: int, fy: int, fx: int)
    requires
        1 <= w,
        1 <= h,
    ensures
        eligible_count(w, h, fy, fx) >= w * h - 9,
{
    broadcast use vstd::seq_lib::seq_to_set_is_finite;

    let n = w * h;
    assert(0 <= n) by (nonlinear_arith)
        requires
            1 <= w,
            1 <= h,
            n == w * h,
    ;
    lemma_eligible_safe_split(w, fy, fx, n);
    let safe = safe_idx_set(w, fy, fx, n);
    let to_pos = |i: int| (i / w, i % w);
    let image = safe.map(to_pos);
    assert(vstd::relations::injective_on(to_pos, safe)) by {
        assert forall|i1: int, i2: int|
            safe.contains(i1) && safe.contains(i2) && #[trigger] to_pos(i1) == #[trigger] to_pos(
                i2,
            ) implies i1 == i2 by {
            vstd::arithmetic::div_mod::lemma_fundamental_div_mod(i1, w);
            vstd::arithmetic::div_mod::lemma_fundamental_div_mod(i2, w);
        }
    }
    vstd::set_lib::lemma_map_size(safe, image, to_pos);
    let block = around_list(w, h, fy, fx).to_set();
    lemma_around_upto_len(w, h, fy, fx, 9);
    around_list(w, h, fy, fx).lemma_cardinality_of_set();
    assert(image.subset_of(block)) by {
        assert forall|p: (int, int)| image.contains(p) implies block.contains(p) by {
            let i = choose|i: int| safe.contains(i) && p == to_pos(i);
            vstd::arithmetic::div_mod::lemma_mod_bound(i, w);
            vstd::arithmetic::div_mod::lemma_multiply_divide_lt(i, w, h);
            vstd::arithmetic::div_mod::lemma_div_pos_is_pos(i, w);
            assert(in_grid(w, h, p));
            lemma_around_list_contains(w, h, fy, fx, p);
        }
    }
    vstd::set_lib::lemma_len_subset(image, block);
}

/// The row and column of a flat row-major index.
pub(crate) fn unflatten(w: usize, h: usize, i: usize) -> (p: (usize, usize))
    requires
        1 <= w,
        1 <= h,
        i < w * h,
    ensures
        p.0 as int == i as int / w as int,
        p.1 as int == i as int % w as int,
        in_grid(w as int, h as int, pos_view(p)),
        (p.0 as int) * (w as int) + (p.1 as int) == i as int,
{
    let y = i / w;
    let x = i % w;
    proof {
        let wi = w as int;
        let hi = h as int;
        let ii = i as int;
        vstd::arithmetic::div_mod::lemma_fundamental_div_mod(ii, wi);
        vstd::arithmetic::div_mod::lemma_mod_bound(ii, wi);
        assert(ii < wi * hi) by (nonlinear_arith)
            requires
                ii < (w as int) * (h as int),
                wi == w as int,
                hi == h as int,
        ;
        vstd::arithmetic::div_mod::lemma_multiply_divide_lt(ii, wi, hi);
        assert((y as int) * wi == wi * (y as int)) by (nonlinear_arith);
    }
    (y, x)
}

/// Relies on rand's `SliceRandom::choose_multiple`, which samples
/// `min(amount, len)` elements of the slice at distinct indices, without
/// replacement; distinct slice values therefore yield distinct samples.
#[verifier::external_body]
fn choose_distinct(items: &Vec<usize>, amount: usize) -> (r: Vec<usize>)
    ensures
        r@.len() == if amount as int <= items@.len() {
            amount as int
        } else {
            items@.len() as int
        },
        forall|i: int| 0 <= i < r@.len() ==> items@.contains(#[trigger] r@[i]),
        (forall|i: int, j: int| 0 <= i < j < items@.len() ==> items@[i] != items@[j]) ==> (forall|
            i: int,
            j: int,
        | 0 <= i < j < r@.len() ==> r@[i] != r@[j]),
{
    items.choose_multiple(&mut rand::thread_rng(), amount).cloned().collect()
}

/// The flat indices of all cells eligible to hold a mine, in increasing
/// order: every on-board cell outside the safe zone around `(fy, fx)`.
fn eligible_positions(w: usize, h: usize, fy: usize, fx: usize) -> (r: Vec<usize>)
    requires
        1 <= w <= 0x1000,
        1 <= h <= 0x1000,
        fy < h,
        fx < w,
    ensures
        r@.len() == eligible_count(w as int, h as int, fy as int, fx as int),
        forall|k: int| 0 <= k < r@.len() ==> (#[trigger] r@[k]) < w * h,
        forall|k: int| 0 <= k < r@.len() ==> !in_safe_zone(
            fy as int,
            fx as int,
            ((#[trigger] r@[k]) as int / w as int, r@[k] as int % w as int),
        ),
        forall|k1: int, k2: int| 0 <= k1 < k2 < r@.len() ==> r@[k1] < r@[k2],
{
    assert(w * h <= 0x1000000) by (nonlinear_arith)
        requires
            w <= 0x1000,
            h <= 0x1000,
    ;
    let total: usize = w * h;
    let mut r: Vec<usize> = Vec::new();
    let mut i: usize = 0;
    while i < total
        invariant
            1 <= w <= 0x1000,
            1 <= h <= 0x1000,
            fy < h,
            fx < w,
            total == w * h,
            i <= total,
            r@.len() == eligible_in_prefix(w as int, fy as int, fx as int, i as int),
            forall|k: int| 0 <= k < r@.len() ==> (#[trigger] r@[k]) < i,
            forall|k: int| 0 <= k < r@.len() ==> !in_safe_zone(
                fy as int,
                fx as int,
                ((#[trigger] r@[k]) as int / w as int, r@[k] as int % w as int),
            ),
            forall|k1: int, k2: int| 0 <= k1 < k2 < r@.len() ==> r@[k1] < r@[k2],
        decreases total - i,
    {
        let p = unflatten(w, h, i);
        let y = p.0;
        let x = p.1;
        let safe_row = y + 1 >= fy && y <= fy + 1;
        let safe_col = x + 1 >= fx && x <= fx + 1;
        if !(safe_row && safe_col) {
            r.push(i);
        }
        i = i + 1;
    }
    r
}

/// Seeds the board with mines: a uniform random sample, without replacement,
/// of the eligible cells, the sample as large as the configured mine count
/// lets it be. The safe zone around the first click never receives a mine,
/// so the opening reveal is always safe.
pub fn place_mines(board: &mut Board, settings: &Settings, starting_coords: CellPos)
    requires
        old(board).wf(),
        settings.wf(),
        old(board).width == settings.width as int,
        old(board).height == settings.height as int,
        0 <= starting_coords.x < settings.width,
        0 <= starting_coords.y < settings.height,
        forall|i: int| 0 <= i < old(board).cells@.len() ==> (#[trigger] old(board).cells@[i]).content
            == CellContent::Empty(0u8),
    ensures
        final(board).wf(),
        final(board).width == old(board).width,
        final(board).height == old(board).height,
        final(board).cells@.len() == old(board).cells@.len(),
        forall|i: int| 0 <= i < final(board).cells@.len() ==> {
            &&& (#[trigger] final(board).cells@[i]).hidden == old(board).cells@[i].hidden
            &&& final(board).cells@[i].flagged == old(board).cells@[i].flagged
            &&& final(board).cells@[i].selected == old(board).cells@[i].selected
            &&& (final(board).cells@[i].content == CellContent::Mine || final(board).cells@[i].content
                == CellContent::Empty(0u8))
        },
        forall|p: (int, int)|
            final(board).pos_in_grid(p) && in_safe_zone(
                starting_coords.y as int,
                starting_coords.x as int,
                p,
            ) ==> !(#[trigger] final(board).at(p)).is_mine(),
        total_mines(final(board).cells@) == {
            let avail = eligible_count(
                final(board).width as int,
                final(board).height as int,
                starting_coords.y as int,
                starting_coords.x as int,
            );
            if settings.mines as int <= avail {
                settings.mines as int
            } else {
                avail
            }
        },
{
    let w = board.width;
    let h = board.height;
    let fy = starting_coords.y as usize;
    let fx = starting_coords.x as usize;
    let elig = eligible_positions(w, h, fy, fx);
    let chosen = choose_distinct(&elig, settings.mines as usize);
    proof {
        assert(forall|i: int, j: int| 0 <= i < j < elig@.len() ==> elig@[i] != elig@[j]);
        assert(forall|i: int, j: int| 0 <= i < j < chosen@.len() ==> chosen@[i] != chosen@[j]);
        lemma_mines_in_prefix_none(board.cells@, board.cells@.len() as int);
    }
    let ghost cells0 = board.cells@;
    let mut j: usize = 0;
    while j < chosen.len()
        invariant
            board.wf(),
            board.width == w,
            board.height == h,
            1 <= w <= 0x1000,
            1 <= h <= 0x1000,
            fy < h,
            fx < w,
            j <= chosen.len(),
            board.cells@.len() == cells0.len(),
            cells0.len() == w * h,
            forall|k: int| 0 <= k < chosen@.len() ==> elig@.contains(#[trigger] chosen@[k]),
            forall|k: int| 0 <= k < elig@.len() ==> (#[trigger] elig@[k]) < w * h,
            forall|k: int| 0 <= k < elig@.len() ==> !in_safe_zone(
                fy as int,
                fx as int,
                ((#[trigger] elig@[k]) as int / w as int, elig@[k] as int % w as int),
            ),
            forall|i: int, j2: int| 0 <= i < j2 < chosen@.len() ==> chosen@[i] != chosen@[j2],
            forall|i: int| 0 <= i < cells0.len() ==> (#[trigger] cells0[i]).content
                == CellContent::Empty(0u8),
            forall|i: int| 0 <= i < board.cells@.len() ==> {
                &&& (#[trigger] board.cells@[i]).hidden == cells0[i].hidden
                &&& board.cells@[i].flagged == cells0[i].flagged
                &&& board.cells@[i].selected == cells0[i].selected
                &&& (board.cells@[i].content == CellContent::Mine || board.cells@[i].content
                    == CellContent::Empty(0u8))
            },
            forall|i: int| 0 <= i < board.cells@.len() ==> ((#[trigger] board.cells@[i]).is_mine()
                <==> exists|k: int| 0 <= k < j && chosen@[k] as int == i),
            mines_in_prefix(board.cells@, cells0.len() as int) == j as int,
        decreases chosen.len() - j,
    {
        let idx = chosen[j];
        proof {
            assert(elig@.contains(chosen@[j as int]));
        }
        let p = unflatten(w, h, idx);
        let ghost pre = board.cells@;
        let old_cell = board.get(p.0, p.1);
        proof {
            board.lemma_flat(pos_view(p), pos_view(p));
            assert(board.flat(pos_view(p)) == idx as int);
            assert(!pre[idx as int].is_mine());
        }
        board.set(p.0, p.1, Cell { content: CellContent::Mine, ..old_cell });
        proof {
            lemma_mines_in_prefix_update(
                pre,
                pre.len() as int,
                idx as int,
                Cell { content: CellContent::Mine, ..old_cell },
            );
            assert forall|i: int| 0 <= i < board.cells@.len() implies ((
            #[trigger] board.cells@[i]).is_mine() <==> exists|k: int|
                0 <= k < j + 1 && chosen@[k] as int == i) by {
                if i == idx as int {
                    assert(chosen@[j as int] as int == i);
                } else {
                    assert(board.cells@[i] == pre[i]);
                }
            }
        }
        j = j + 1;
    }
    proof {
        assert(total_mines(board.cells@) == chosen@.len());
        let sy = starting_coords.y as int;
        let sx = starting_coords.x as int;
        assert forall|p: (int, int)|
            board.pos_in_grid(p) && in_safe_zone(sy, sx, p) implies !(#[trigger] board.at(
            p,
        )).is_mine() by {
            board.lemma_flat(p, p);
            let fi = p.0 * (w as int) + p.1;
            if board.cells@[fi].is_mine() {
                let k = choose|k: int| 0 <= k < chosen@.len() && chosen@[k] as int == fi;
                assert(elig@.contains(chosen@[k]));
                let e = choose|e: int| 0 <= e < elig@.len() && elig@[e] == chosen@[k];
                assert(!in_safe_zone(
                    fy as int,
                    fx as int,
                    (elig@[e] as int / w as int, elig@[e] as int % w as int),
                ));
                assert(fi / (w as int) == p.0 && fi % (w as int) == p.1) by (nonlinear_arith)
                    requires
                        0 <= p.1 < w as int,
                        0 <= p.0,
                        fi == p.0 * (w as int) + p.1,
                        1 <= w as int,
                ;
            }
        }
    }
}

/// The number of mines among the listed positions, read from the cells of a
/// board `w` wide, taking the positions from index `k` on.
pub open spec fn count_mines_from(cells: Seq<Cell>, w: int, ps: Seq<(int, int)>, k: int) -> int
    decreases ps.len() - k,
        when 0 <= k <= ps.len()
{
    if k == ps.len() {
        0
    } else {
        (if cells[ps[k].0 * w + ps[k].1].is_mine() {
            1int
        } else {
            0int
        }) + count_mines_from(cells, w, ps, k + 1)
    }
}

/// The number of mines in the 3-by-3 block around `(y, x)`. For a cell that
/// is not itself a mine this is exactly its count of mine neighbours, the
/// hint the cell displays once revealed.
pub open spec fn mine_count(cells: Seq<Cell>, w: int, h: int, y: int, x: int) -> int {
    count_mines_from(cells, w, around_list(w, h, y, x), 0)
}

/// The count over a position list is between zero and the list length.
pub proof fn lemma_count_mines_from_bounds(cells: Seq<Cell>, w: int, ps: Seq<(int, int)>, k: int)
    requires
        0 <= k <= ps.len(),
    ensures
        0 <= count_mines_from(cells, w, ps, k) <= ps.len() - k,
    decreases ps.len() - k,
{
    if k < ps.len() {
        lemma_count_mines_from_bounds(cells, w, ps, k + 1);
    }
}

/// A list holding a known safe position counts strictly fewer mines than
/// positions.
pub proof fn lemma_count_mines_from_skip(
    cells: Seq<Cell>,
    w: int,
    ps: Seq<(int, int)>,
    k: int,
    j: int,
)
    requires
        0 <= k <= j < ps.len(),
        !cells[ps[j].0 * w + ps[j].1].is_mine(),
    ensures
        count_mines_from(cells, w, ps, k) <= ps.len() - k - 1,
    decreases j - k,
{
    if j == k {
        lemma_count_mines_from_bounds(cells, w, ps, k + 1);
    } else {
        lemma_count_mines_from_skip(cells, w, ps, k + 1, j);
    }
}

/// The count reads only mine-ness at the listed positions: boards that agree
/// there agree on the count.
pub proof fn lemma_count_mines_from_congruence(
    c1: Seq<Cell>,
    c2: Seq<Cell>,
    w: int,
    ps: Seq<(int, int)>,
    k: int,
)
    requires
        0 <= k <= ps.len(),
        forall|j: int| k <= j < ps.len() ==> (0 <= (#[trigger] ps[j]).0 * w + ps[j].1 < c1.len()),
        c1.len() == c2.len(),
        forall|i: int| 0 <= i < c1.len() ==> (#[trigger] c1[i]).is_mine() == c2[i].is_mine(),
    ensures
        count_mines_from(c1, w, ps, k) == count_mines_from(c2, w, ps, k),
    decreases ps.len() - k,
{
    if k < ps.len() {
        lemma_count_mines_from_congruence(c1, c2, w, ps, k + 1);
    }
}

/// Fills in the numeric hints, exactly once, immediately after placement:
/// every cell that is not a mine receives the count of mines in its
/// neighbourhood; mines are untouched, as is all player-facing state.
pub fn place_numbers(board: &mut Board)
    requires
        old(board).wf(),
    ensures
        final(board).wf(),
        final(board).width == old(board).width,
        final(board).height == old(board).height,
        final(board).cells@.len() == old(board).cells@.len(),
        forall|i: int| 0 <= i < final(board).cells@.len() ==> {
            &&& (#[trigger] final(board).cells@[i]).hidden == old(board).cells@[i].hidden
            &&& final(board).cells@[i].flagged == old(board).cells@[i].flagged
            &&& final(board).cells@[i].selected == old(board).cells@[i].selected
            &&& final(board).cells@[i].is_mine() == old(board).cells@[i].is_mine()
        },
        forall|i: int| 0 <= i < final(board).cells@.len() && (#[trigger] old(
            board,
        ).cells@[i]).is_mine() ==> final(board).cells@[i] == old(board).cells@[i],
        forall|p: (int, int)| #[trigger]
            final(board).pos_in_grid(p) && !old(board).at(p).is_mine() ==> final(board).at(p).content
                == CellContent::Empty(
                mine_count(
                    old(board).cells@,
                    final(board).width as int,
                    final(board).height as int,
                    p.0,
                    p.1,
                ) as u8,
            ),
{
    let w = board.width;
    let h = board.height;
    assert(w * h <= 0x1000000) by (nonlinear_arith)
        requires
            w <= 0x1000,
            h <= 0x1000,
    ;
    let total: usize = w * h;
    let ghost cells0 = board.cells@;

    let mut counts: Vec<u8> = Vec::new();
    let mut i: usize = 0;
    while i < total
        invariant
            board.wf(),
            board.width == w,
            board.height == h,
            board.cells@ == cells0,
            total == w * h,
            i <= total,
            counts@.len() == i,
            forall|k: int| 0 <= k < i ==> (#[trigger] counts@[k]) as int == mine_count(
                cells0,
                w as int,
                h as int,
                k / (w as int),
                k % (w as int),
            ),
            forall|k: int| 0 <= k < i ==> (#[trigger] counts@[k]) <= 9,
            forall|k: int| 0 <= k < i && !cells0[k].is_mine() ==> (#[trigger] counts@[k]) <= 8,
        decreases total - i,
    {
        let p = unflatten(w, h, i);
        let ghost al = around_list(w as int, h as int, p.0 as int, p.1 as int);
        let around = get_around_cell([p.0, p.1], board);
        let mut n: usize = 0;
        let mut k: usize = 0;
        while k < around.len()
            invariant
                board.wf(),
                board.cells@ == cells0,
                board.width == w,
                board.height == h,
                al == around_list(w as int, h as int, p.0 as int, p.1 as int),
                around@.len() == al.len(),
                forall|j: int|
                    0 <= j < around@.len() ==> {
                        let q = al[j];
                        (#[trigger] around@[j]).1 == q.0 && around@[j].2 == q.1 && around@[j].0
                            == board.at(q).content
                    },
                k <= around.len(),
                n <= k,
                n as int + count_mines_from(cells0, w as int, al, k as int) == count_mines_from(
                    cells0,
                    w as int,
                    al,
                    0,
                ),
            decreases around.len() - k,
        {
            let entry = around[k];
            proof {
                assert(al[k as int].0 * (w as int) + al[k as int].1 == board.flat(al[k as int]));
            }
            if matches!(entry.0, CellContent::Mine) {
                n = n + 1;
            }
            k = k + 1;
        }
        proof {
            lemma_around_upto_len(w as int, h as int, p.0 as int, p.1 as int, 9);
            lemma_count_mines_from_bounds(cells0, w as int, al, 0);
            if !cells0[i as int].is_mine() {
                lemma_around_list_contains(
                    w as int,
                    h as int,
                    p.0 as int,
                    p.1 as int,
                    (p.0 as int, p.1 as int),
                );
                let cj = choose|cj: int| 0 <= cj < al.len() && al[cj] == (p.0 as int, p.1 as int);
                assert(!cells0[al[cj].0 * (w as int) + al[cj].1].is_mine());
                lemma_count_mines_from_skip(cells0, w as int, al, 0, cj);
            }
        }
        counts.push(n as u8);
        i = i + 1;
    }

    let mut i: usize = 0;
    while i < total
        invariant
            board.wf(),
            board.width == w,
            board.height == h,
            board.cells@.len() == cells0.len(),
            cells0.len() == w * h,
            total == w * h,
            i <= total,
            counts@.len() == total,
            forall|k: int| 0 <= k < total ==> (#[trigger] counts@[k]) as int == mine_count(
                cells0,
                w as int,
                h as int,
                k / (w as int),
                k % (w as int),
            ),
            forall|k: int| 0 <= k < total && !cells0[k].is_mine() ==> (#[trigger] counts@[k]) <= 8,
            forall|k: int| 0 <= k < cells0.len() ==> {
                &&& (#[trigger] board.cells@[k]).hidden == cells0[k].hidden
                &&& board.cells@[k].flagged == cells0[k].flagged
                &&& board.cells@[k].selected == cells0[k].selected
                &&& board.cells@[k].is_mine() == cells0[k].is_mine()
            },
            forall|k: int| 0 <= k < cells0.len() && (#[trigger] cells0[k]).is_mine() ==>
                board.cells@[k] == cells0[k],
            forall|k: int| 0 <= k < i && !(#[trigger] cells0[k]).is_mine() ==> board.cells@[k].content
                == CellContent::Empty(counts@[k] as u8),
            forall|k: int| i <= k < cells0.len() ==> (#[trigger] board.cells@[k]) == cells0[k],
        decreases total - i,
    {
        let p = unflatten(w, h, i);
        let c = board.get(p.0, p.1);
        proof {
            board.lemma_flat(pos_view(p), pos_view(p));
            assert(board.flat(pos_view(p)) == i as int);
        }
        if !matches!(c.content, CellContent::Mine) {
            let hint = counts[i];
            board.set(p.0, p.1, Cell { content: CellContent::Empty(hint), ..c });
        }
        i = i + 1;
    }
    proof {
        assert forall|p: (int, int)| #[trigger]
            board.pos_in_grid(p) && !(cells0[p.0 * (w as int) + p.1]).is_mine() implies board.at(
            p,
        ).content == CellContent::Empty(
            mine_count(cells0, w as int, h as int, p.0, p.1) as u8,
        ) by {
            board.lemma_flat(p, p);
            let fi = p.0 * (w as int) + p.1;
            assert(board.cells@[fi].content == CellContent::Empty(counts@[fi] as u8));
            assert(fi / (w as int) == p.0 && fi % (w as int) == p.1) by (nonlinear_arith)
                requires
                    0 <= p.1 < w as int,
                    0 <= p.0,
                    fi == p.0 * (w as int) + p.1,
                    1 <= w as int,
            ;
        }
    }
}

/// A strictly smaller flat row-major index means an earlier position in the
/// lexicographic (row, column) order.
proof fn lemma_flat_order_is_lex(w: int, y1: int, x1: int, y2: int, x2: int)
    requires
        1 <= w,
        0 <= x1 < w,
        0 <= x2 < w,
        0 <= y1,
        0 <= y2,
        y1 * w + x1 < y2 * w + x2,
    ensures
        y1 < y2 || (y1 == y2 && x1 < x2),
{
    assert(y1 < y2 || (y1 == y2 && x1 < x2)) by (nonlinear_arith)
        requires
            1 <= w,
            0 <= x1 < w,
            0 <= x2 < w,
            y1 * w + x1 < y2 * w + x2,
    ;
}

/// The positions of every cell that is not a mine, in row-major order
/// (lexicographic by row, then column): the session's initial list of
/// remaining safe cells.
pub fn initialize_free_cells(board: &Board) -> (r: Vec<(usize, usize)>)
    requires
        board.wf(),
    ensures
        r@.no_duplicates(),
        forall|q: (usize, usize)| #[trigger]
            r@.contains(q) <==> (board.pos_in_grid(pos_view(q)) && !board.at(
                pos_view(q),
            ).is_mine()),
        r@.len() + total_mines(board.cells@) == board.cells@.len(),
        forall|k1: int, k2: int|
            0 <= k1 < k2 < r@.len() ==> ((#[trigger] r@[k1]).0 < (#[trigger] r@[k2]).0 || (r@[k1].0
                == r@[k2].0 && r@[k1].1 < r@[k2].1)),
{
    let w = board.width;
    let h = board.height;
    assert(w * h <= 0x1000000) by (nonlinear_arith)
        requires
            w <= 0x1000,
            h <= 0x1000,
    ;
    let total: usize = w * h;
    let mut r: Vec<(usize, usize)> = Vec::new();
    let mut i: usize = 0;
    while i < total
        invariant
            board.wf(),
            board.width == w,
            board.height == h,
            total == w * h,
            board.cells@.len() == total,
            i <= total,
            forall|k1: int, k2: int| 0 <= k1 < k2 < r@.len() ==> (r@[k1].0 as int) * (w as int)
                + (r@[k1].1 as int) < (r@[k2].0 as int) * (w as int) + (r@[k2].1 as int),
            forall|k: int| 0 <= k < r@.len() ==> board.pos_in_grid(pos_view(#[trigger] r@[k]))
                && (r@[k].0 as int) * (w as int) + (r@[k].1 as int) < i as int && !board.at(
                pos_view(r@[k]),
            ).is_mine(),
            forall|q: (usize, usize)| #[trigger]
                r@.contains(q) ==> (board.pos_in_grid(pos_view(q)) && !board.at(
                    pos_view(q),
                ).is_mine()),
            forall|q: (usize, usize)|
                board.pos_in_grid(pos_view(q)) && (q.0 as int) * (w as int) + (q.1 as int)
                    < i as int && !board.at(pos_view(q)).is_mine() ==> #[trigger] r@.contains(q),
            r@.len() as int + mines_in_prefix(board.cells@, i as int) == i as int,
        decreases total - i,
    {
        let p = unflatten(w, h, i);
        let c = board.get(p.0, p.1);
        proof {
            board.lemma_flat(pos_view(p), pos_view(p));
            assert(board.flat(pos_view(p)) == i as int);
        }
        let ghost r_old = r@;
        if !matches!(c.content, CellContent::Mine) {
            r.push(p);
        }
        proof {
            assert forall|q: (usize, usize)|
                board.pos_in_grid(pos_view(q)) && (q.0 as int) * (w as int) + (q.1 as int) < i + 1
                    && !board.at(pos_view(q)).is_mine() implies #[trigger] r@.contains(q) by {
                if (q.0 as int) * (w as int) + (q.1 as int) == i as int {
                    board.lemma_flat(pos_view(q), pos_view(p));
                    assert(q == p);
                    assert(!c.is_mine());
                    assert(r@[r@.len() - 1] == q);
                } else {
                    assert(r_old.contains(q));
                    let idx = choose|idx: int| 0 <= idx < r_old.len() && r_old[idx] == q;
                    assert(r@[idx] == q);
                }
            }
        }
        i = i + 1;
    }
    proof {
        assert forall|q: (usize, usize)| #[trigger]
            r@.contains(q) implies (board.pos_in_grid(pos_view(q)) && !board.at(
            pos_view(q),
        ).is_mine()) by {}
        assert forall|q: (usize, usize)|
            board.pos_in_grid(pos_view(q)) && !board.at(pos_view(q)).is_mine() implies #[trigger] r@
            .contains(q) by {
            board.lemma_flat(pos_view(q), pos_view(q));
        }
        assert forall|k1: int, k2: int| 0 <= k1 < k2 < r@.len() implies r@[k1] != r@[k2] by {}
        assert forall|k1: int, k2: int|
            0 <= k1 < k2 < r@.len() implies ((#[trigger] r@[k1]).0 < (#[trigger] r@[k2]).0 || (
        r@[k1].0 == r@[k2].0 && r@[k1].1 < r@[k2].1)) by {
            lemma_flat_order_is_lex(
                w as int,
                r@[k1].0 as int,
                r@[k1].1 as int,
                r@[k2].0 as int,
                r@[k2].1 as int,
            );
        }
    }
    r
}

} // verus!
