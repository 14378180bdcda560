//! What the flood fill reveals, said independently of any traversal: the
//! walk visits exactly the cells reachable from the clicked cell through
//! chains of adjacent zero-hint cells, together with everything bordering
//! such a chain. The breadth-first walk in `flood` is proved here to
//! compute that region, no more and no less.

use vstd::prelude::*;

use crate::board::{around_list, in_grid, lemma_add_contains, lemma_around_list_contains,
    lemma_around_list_in_grid};
use crate::cell::CellContent;
use crate::flood::{
    flood_expand, flood_inv, flood_opens, flood_visit, flood_visited, is_mine_at, is_zero_at,
    lemma_flood_expand_props, lemma_grid_seq_card,
};

verus! {

/// Chebyshev adjacency: `q` lies in the 3-by-3 block around `p` (the centre
/// itself included).
pub open spec fn near(p: (int, int), q: (int, int)) -> bool {
    p.0 - 1 <= q.0 <= p.0 + 1 && p.1 - 1 <= q.1 <= p.1 + 1
}

/// A chain of on-board zero-hint cells, each step moving to an adjacent one.
pub open spec fn zero_chain(grid: Seq<CellContent>, w: int, h: int, path: Seq<(int, int)>) -> bool {
    &&& forall|i: int| 0 <= i < path.len() ==> in_grid(w, h, #[trigger] path[i]) && is_zero_at(
        grid,
        w,
        path[i],
    )
    &&& forall|i: int| 1 <= i < path.len() ==> near(path[i - 1], #[trigger] path[i])
}

/// Whether a chain of zero-hint cells leads from `start` to `z`.
pub open spec fn zero_connected(
    grid: Seq<CellContent>,
    w: int,
    h: int,
    start: (int, int),
    z: (int, int),
) -> bool {
    exists|path: Seq<(int, int)>|
        #[trigger] zero_chain(grid, w, h, path) && path.len() > 0 && path[0] == start
            && path.last() == z
}

/// The region a click on a zero-hint cell opens up, stated by reachability:
/// every position adjacent to (or part of) some zero chain from the click.
pub open spec fn zero_region(
    grid: Seq<CellContent>,
    w: int,
    h: int,
    start: (int, int),
    p: (int, int),
) -> bool {
    in_grid(w, h, p) && exists|z: (int, int)| #[trigger]
        zero_connected(grid, w, h, start, z) && near(z, p)
}

proof fn lemma_push_contains<A>(s: Seq<A>, x: A, y: A)
    ensures
        s.push(x).contains(y) <==> (s.contains(y) || y == x),
{
    if s.contains(y) {
        let i = choose|i: int| 0 <= i < s.len() && s[i] == y;
        assert(s.push(x)[i] == y);
    }
    if y == x {
        assert(s.push(x)[s.len() as int] == y);
    }
    if s.push(x).contains(y) {
        let i = choose|i: int| 0 <= i < s.push(x).len() && s.push(x)[i] == y;
        if i < s.len() {
            assert(s[i] == y);
        }
    }
}

/// A chain extends by one adjacent zero cell.
proof fn lemma_zero_connected_step(
    grid: Seq<CellContent>,
    w: int,
    h: int,
    start: (int, int),
    z: (int, int),
    z2: (int, int),
)
    requires
        zero_connected(grid, w, h, start, z),
        in_grid(w, h, z2),
        is_zero_at(grid, w, z2),
        near(z, z2),
    ensures
        zero_connected(grid, w, h, start, z2),
{
    let path = choose|path: Seq<(int, int)>|
        #[trigger] zero_chain(grid, w, h, path) && path.len() > 0 && path[0] == start
            && path.last() == z;
    let path2 = path.push(z2);
    assert(zero_chain(grid, w, h, path2)) by {
        assert(forall|i: int| 0 <= i < path.len() ==> path2[i] == path[i]);
        assert(path2[path.len() as int] == z2);
        assert(path2[path.len() - 1] == z);
    }
    assert(path2.last() == z2);
}

/// Exactly what one expansion step adds: the lists keep their old entries
/// in place, the visited list gains the not-yet-visited block positions,
/// and the queue gains the zero-hint cells among those.
pub proof fn lemma_flood_expand_membership(
    grid: Seq<CellContent>,
    w: int,
    h: int,
    around: Seq<(int, int)>,
    j: int,
    visited: Seq<(int, int)>,
    queue: Seq<(int, int)>,
)
    requires
        0 <= j <= around.len(),
    ensures
        ({
            let r = flood_expand(grid, w, h, around, j, visited, queue);
            &&& r.0.len() >= visited.len()
            &&& r.1.len() >= queue.len()
            &&& forall|k: int| 0 <= k < visited.len() ==> r.0[k] == visited[k]
            &&& forall|k: int| 0 <= k < queue.len() ==> r.1[k] == queue[k]
            &&& forall|p: (int, int)| #[trigger]
                r.0.contains(p) <==> (visited.contains(p) || exists|k: int|
                    j <= k < around.len() && around[k] == p)
            &&& forall|p: (int, int)| #[trigger]
                r.1.contains(p) <==> (queue.contains(p) || ((exists|k: int|
                    j <= k < around.len() && around[k] == p) && !visited.contains(p) && is_zero_at(
                    grid,
                    w,
                    p,
                )))
        }),
    decreases around.len() - j,
{
    if j < around.len() {
        let a = around[j];
        let r = flood_expand(grid, w, h, around, j, visited, queue);
        if visited.contains(a) {
            lemma_flood_expand_membership(grid, w, h, around, j + 1, visited, queue);
            assert forall|k: int| 0 <= k < visited.len() implies r.0[k] == visited[k] by {}
            assert forall|k: int| 0 <= k < queue.len() implies r.1[k] == queue[k] by {}
            assert forall|p: (int, int)| #[trigger]
                r.0.contains(p) <==> (visited.contains(p) || exists|k: int|
                    j <= k < around.len() && around[k] == p) by {
                if r.0.contains(p) && !visited.contains(p) {
                    let k = choose|k: int| j + 1 <= k < around.len() && around[k] == p;
                    assert(j <= k < around.len() && around[k] == p);
                }
                if !visited.contains(p) && (exists|k: int|
                    j <= k < around.len() && around[k] == p) {
                    let k = choose|k: int| j <= k < around.len() && around[k] == p;
                    if k == j {
                        assert(p == a);
                    } else {
                        assert(j + 1 <= k < around.len() && around[k] == p);
                    }
                }
            }
            assert forall|p: (int, int)| #[trigger]
                r.1.contains(p) <==> (queue.contains(p) || ((exists|k: int|
                    j <= k < around.len() && around[k] == p) && !visited.contains(p) && is_zero_at(
                    grid,
                    w,
                    p,
                ))) by {
                if r.1.contains(p) && !queue.contains(p) {
                    let k = choose|k: int| j + 1 <= k < around.len() && around[k] == p;
                    assert(j <= k < around.len() && around[k] == p);
                }
                if !queue.contains(p) && !visited.contains(p) && is_zero_at(grid, w, p) && (exists|
                    k: int,
                | j <= k < around.len() && around[k] == p) {
                    let k = choose|k: int| j <= k < around.len() && around[k] == p;
                    if k == j {
                        assert(visited.contains(p));
                    } else {
                        assert(j + 1 <= k < around.len() && around[k] == p);
                    }
                }
            }
        } else {
            let v2 = visited.push(a);
            let zero_a = is_zero_at(grid, w, a);
            let q2 = if zero_a {
                queue.push(a)
            } else {
                queue
            };
            lemma_flood_expand_membership(grid, w, h, around, j + 1, v2, q2);
            assert forall|k: int| 0 <= k < visited.len() implies r.0[k] == visited[k] by {
                assert(r.0[k] == v2[k]);
                assert(v2[k] == visited[k]);
            }
            assert forall|k: int| 0 <= k < queue.len() implies r.1[k] == queue[k] by {
                assert(r.1[k] == q2[k]);
                assert(q2[k] == queue[k]);
            }
            assert(v2[visited.len() as int] == a);
            assert(v2.contains(a));
            if zero_a {
                assert(q2[queue.len() as int] == a);
                assert(q2.contains(a));
            }
            assert forall|p: (int, int)| #[trigger]
                r.0.contains(p) <==> (visited.contains(p) || exists|k: int|
                    j <= k < around.len() && around[k] == p) by {
                lemma_push_contains(visited, a, p);
                if r.0.contains(p) && !visited.contains(p) {
                    if v2.contains(p) {
                        assert(p == a);
                        assert(around[j] == p);
                    } else {
                        let k = choose|k: int| j + 1 <= k < around.len() && around[k] == p;
                        assert(j <= k < around.len() && around[k] == p);
                    }
                }
                if !visited.contains(p) && (exists|k: int|
                    j <= k < around.len() && around[k] == p) {
                    let k = choose|k: int| j <= k < around.len() && around[k] == p;
                    if k == j {
                        assert(v2.contains(p));
                    } else {
                        assert(j + 1 <= k < around.len() && around[k] == p);
                    }
                }
            }
            assert forall|p: (int, int)| #[trigger]
                r.1.contains(p) <==> (queue.contains(p) || ((exists|k: int|
                    j <= k < around.len() && around[k] == p) && !visited.contains(p) && is_zero_at(
                    grid,
                    w,
                    p,
                ))) by {
                lemma_push_contains(visited, a, p);
                if zero_a {
                    lemma_push_contains(queue, a, p);
                }
                if r.1.contains(p) && !queue.contains(p) {
                    if q2.contains(p) {
                        assert(zero_a && p == a);
                        assert(around[j] == p);
                    } else {
                        let k = choose|k: int| j + 1 <= k < around.len() && around[k] == p;
                        assert(!v2.contains(p));
                        assert(j <= k < around.len() && around[k] == p);
                    }
                }
                if !queue.contains(p) && !visited.contains(p) && is_zero_at(grid, w, p) && (exists|
                    k: int,
                | j <= k < around.len() && around[k] == p) {
                    if p == a {
                        assert(q2.contains(p));
                        assert(r.1.contains(p)) by {
                            let k2 = choose|k2: int| 0 <= k2 < q2.len() && q2[k2] == p;
                            assert(r.1[k2] == p);
                        }
                    } else {
                        let k = choose|k: int| j <= k < around.len() && around[k] == p;
                        assert(k != j);
                        assert(!v2.contains(p));
                        assert(j + 1 <= k < around.len() && around[k] == p);
                    }
                }
            }
        }
    }
}

/// Soundness of the walk: starting from a queue of zero cells reachable
/// from `start`, every position it ever visits lies in the zero region.
proof fn lemma_flood_visit_sound(
    grid: Seq<CellContent>,
    w: int,
    h: int,
    queue: Seq<(int, int)>,
    i: int,
    visited: Seq<(int, int)>,
    start: (int, int),
)
    requires
        flood_inv(w, h, queue, i, visited),
        forall|k: int| 0 <= k < queue.len() ==> (zero_connected(
            grid,
            w,
            h,
            start,
            #[trigger] queue[k],
        ) && in_grid(w, h, queue[k]) && is_zero_at(grid, w, queue[k])),
        forall|k: int| 0 <= k < visited.len() ==> zero_region(
            grid,
            w,
            h,
            start,
            #[trigger] visited[k],
        ),
    ensures
        forall|p: (int, int)| #[trigger]
            flood_visit(grid, w, h, queue, i, visited).contains(p) ==> zero_region(
                grid,
                w,
                h,
                start,
                p,
            ),
    decreases w * h - visited.len(), queue.len() - i,
{
    if i == queue.len() {
        assert forall|p: (int, int)| #[trigger]
            flood_visit(grid, w, h, queue, i, visited).contains(p) implies zero_region(
            grid,
            w,
            h,
            start,
            p,
        ) by {
            let k = choose|k: int| 0 <= k < visited.len() && visited[k] == p;
        }
    } else {
        let c = queue[i];
        let a = around_list(w, h, c.0, c.1);
        let r = flood_expand(grid, w, h, a, 0, visited, queue);
        lemma_around_list_in_grid(w, h, c.0, c.1);
        lemma_flood_expand_props(grid, w, h, a, 0, visited, queue);
        lemma_flood_expand_membership(grid, w, h, a, 0, visited, queue);
        lemma_grid_seq_card(w, h, r.0);
        assert forall|k: int| 0 <= k < r.0.len() implies zero_region(
            grid,
            w,
            h,
            start,
            #[trigger] r.0[k],
        ) by {
            let p = r.0[k];
            assert(r.0.contains(p));
            if visited.contains(p) {
                let k2 = choose|k2: int| 0 <= k2 < visited.len() && visited[k2] == p;
            } else {
                let k2 = choose|k2: int| 0 <= k2 < a.len() && a[k2] == p;
                assert(a.contains(p));
                lemma_around_list_contains(w, h, c.0, c.1, p);
                assert(near(c, p));
                assert(zero_connected(grid, w, h, start, c));
            }
        }
        assert forall|k: int| 0 <= k < r.1.len() implies (zero_connected(
            grid,
            w,
            h,
            start,
            #[trigger] r.1[k],
        ) && in_grid(w, h, r.1[k]) && is_zero_at(grid, w, r.1[k])) by {
            let p = r.1[k];
            assert(r.1.contains(p));
            if queue.contains(p) {
                let k2 = choose|k2: int| 0 <= k2 < queue.len() && queue[k2] == p;
            } else {
                let k2 = choose|k2: int| 0 <= k2 < a.len() && a[k2] == p;
                assert(a.contains(p));
                lemma_around_list_contains(w, h, c.0, c.1, p);
                lemma_zero_connected_step(grid, w, h, start, c, p);
            }
        }
        lemma_flood_visit_sound(grid, w, h, r.1, i + 1, r.0, start);
        assert(flood_visit(grid, w, h, queue, i, visited) == flood_visit(
            grid,
            w,
            h,
            r.1,
            i + 1,
            r.0,
        ));
    }
}

/// Completeness scaffolding for the walk: visited entries persist, every
/// queued cell gets its whole block visited, and in the end the visited
/// list is closed under expanding its zero cells.
proof fn lemma_flood_visit_complete(
    grid: Seq<CellContent>,
    w: int,
    h: int,
    queue: Seq<(int, int)>,
    i: int,
    visited: Seq<(int, int)>,
)
    requires
        flood_inv(w, h, queue, i, visited),
        forall|k: int| 0 <= k < visited.len() ==> (is_zero_at(grid, w, #[trigger] visited[k])
            ==> queue.contains(visited[k])),
        forall|j: int, p: (int, int)|
            0 <= j < i && #[trigger] around_list(w, h, queue[j].0, queue[j].1).contains(p)
                ==> visited.contains(p),
    ensures
        ({
            let v = flood_visit(grid, w, h, queue, i, visited);
            &&& forall|p: (int, int)| visited.contains(p) ==> #[trigger] v.contains(p)
            &&& forall|j: int, p: (int, int)|
                0 <= j < queue.len() && #[trigger] around_list(
                    w,
                    h,
                    queue[j].0,
                    queue[j].1,
                ).contains(p) ==> v.contains(p)
            &&& forall|z: (int, int), p: (int, int)|
                v.contains(z) && is_zero_at(grid, w, z) && #[trigger] around_list(
                    w,
                    h,
                    z.0,
                    z.1,
                ).contains(p) ==> v.contains(p)
        }),
    decreases w * h - visited.len(), queue.len() - i,
{
    let v = flood_visit(grid, w, h, queue, i, visited);
    if i == queue.len() {
        assert forall|z: (int, int), p: (int, int)|
            v.contains(z) && is_zero_at(grid, w, z) && #[trigger] around_list(
                w,
                h,
                z.0,
                z.1,
            ).contains(p) implies v.contains(p) by {
            assert(queue.contains(z));
            let j = choose|j: int| 0 <= j < queue.len() && queue[j] == z;
        }
    } else {
        let c = queue[i];
        let a = around_list(w, h, c.0, c.1);
        let r = flood_expand(grid, w, h, a, 0, visited, queue);
        lemma_around_list_in_grid(w, h, c.0, c.1);
        lemma_flood_expand_props(grid, w, h, a, 0, visited, queue);
        lemma_flood_expand_membership(grid, w, h, a, 0, visited, queue);
        lemma_grid_seq_card(w, h, r.0);
        assert forall|k: int| 0 <= k < r.0.len() implies (is_zero_at(grid, w, #[trigger] r.0[k])
            ==> r.1.contains(r.0[k])) by {
            let z = r.0[k];
            assert(r.0.contains(z));
            if is_zero_at(grid, w, z) {
                if visited.contains(z) {
                    assert(queue.contains(z));
                    let j = choose|j: int| 0 <= j < queue.len() && queue[j] == z;
                    assert(r.1[j] == z);
                    assert(r.1.contains(z));
                } else {
                    assert(r.1.contains(z));
                }
            }
        }
        assert forall|j: int, p: (int, int)|
            0 <= j < i + 1 && #[trigger] around_list(w, h, r.1[j].0, r.1[j].1).contains(
            p,
        ) implies r.0.contains(p) by {
            assert(r.1[j] == queue[j]);
            if j < i {
                assert(visited.contains(p));
            } else {
                assert(r.1[j] == c);
                assert(a.contains(p));
                if !visited.contains(p) {
                    let k = choose|k: int| 0 <= k < a.len() && a[k] == p;
                }
            }
        }
        lemma_flood_visit_complete(grid, w, h, r.1, i + 1, r.0);
        assert(v == flood_visit(grid, w, h, r.1, i + 1, r.0));
        assert forall|p: (int, int)| visited.contains(p) implies #[trigger] v.contains(p) by {
            let k = choose|k: int| 0 <= k < visited.len() && visited[k] == p;
            assert(r.0[k] == p);
            assert(r.0.contains(p));
        }
        assert forall|j: int, p: (int, int)|
            0 <= j < queue.len() && #[trigger] around_list(
                w,
                h,
                queue[j].0,
                queue[j].1,
            ).contains(p) implies v.contains(p) by {
            assert(r.1[j] == queue[j]);
            assert(0 <= j < r.1.len());
        }
    }
}

/// Every block of a chain-connected zero cell lies inside a set that
/// contains the click's own block and is closed under expanding zero cells.
proof fn lemma_chain_stays_inside(
    grid: Seq<CellContent>,
    w: int,
    h: int,
    v: Seq<(int, int)>,
    path: Seq<(int, int)>,
)
    requires
        zero_chain(grid, w, h, path),
        path.len() > 0,
        forall|p: (int, int)| #[trigger]
            around_list(w, h, path[0].0, path[0].1).contains(p) ==> v.contains(p),
        forall|z: (int, int), p: (int, int)|
            v.contains(z) && is_zero_at(grid, w, z) && #[trigger] around_list(
                w,
                h,
                z.0,
                z.1,
            ).contains(p) ==> v.contains(p),
    ensures
        forall|p: (int, int)| #[trigger]
            around_list(w, h, path.last().0, path.last().1).contains(p) ==> v.contains(p),
    decreases path.len(),
{
    if path.len() > 1 {
        let front = path.drop_last();
        assert(zero_chain(grid, w, h, front)) by {
            assert(forall|i: int| 0 <= i < front.len() ==> front[i] == path[i]);
        }
        assert(front[0] == path[0]);
        lemma_chain_stays_inside(grid, w, h, v, front);
        let z_prev = front.last();
        let z = path.last();
        assert(z_prev == path[path.len() - 2]);
        assert(near(z_prev, z));
        lemma_around_list_contains(w, h, z_prev.0, z_prev.1, z);
        assert(v.contains(z));
        assert(is_zero_at(grid, w, z));
    }
}

/// The flood fill computes exactly the zero region: a position is visited
/// if and only if it lies in, or immediately borders, a chain of zero-hint
/// cells starting at the clicked cell. (Which of the visited cells actually
/// open is a separate matter: mines never do.)
pub proof fn lemma_flood_visited_is_zero_region(
    grid: Seq<CellContent>,
    w: int,
    h: int,
    start: (int, int),
    p: (int, int),
)
    requires
        1 <= w,
        1 <= h,
        in_grid(w, h, start),
        is_zero_at(grid, w, start),
    ensures
        flood_visited(grid, w, h, start).contains(p) <==> zero_region(grid, w, h, start, p),
{
    let q0 = seq![start];
    let v0 = Seq::<(int, int)>::empty();
    let v = flood_visited(grid, w, h, start);
    assert(v == flood_visit(grid, w, h, q0, 0, v0));
    assert(zero_connected(grid, w, h, start, start)) by {
        let path = seq![start];
        assert(zero_chain(grid, w, h, path)) by {
            assert(path[0] == start);
        }
        assert(path.last() == start);
    }
    assert(q0[0] == start);
    lemma_flood_visit_sound(grid, w, h, q0, 0, v0, start);
    lemma_flood_visit_complete(grid, w, h, q0, 0, v0);
    if zero_region(grid, w, h, start, p) {
        let z = choose|z: (int, int)| #[trigger]
            zero_connected(grid, w, h, start, z) && near(z, p);
        let path = choose|path: Seq<(int, int)>|
            #[trigger] zero_chain(grid, w, h, path) && path.len() > 0 && path[0] == start
                && path.last() == z;
        assert forall|p2: (int, int)| #[trigger]
            around_list(w, h, path[0].0, path[0].1).contains(p2) implies v.contains(p2) by {
            assert(around_list(w, h, q0[0].0, q0[0].1).contains(p2));
        }
        lemma_chain_stays_inside(grid, w, h, v, path);
        lemma_around_list_contains(w, h, z.0, z.1, p);
        assert(around_list(w, h, path.last().0, path.last().1).contains(p));
    }
}

/// What a click on a zero-hint cell opens, by reachability alone: the zero
/// region with its mines left out. Mines bordering the region are visited
/// by the walk but never opened.
pub proof fn lemma_flood_opens_is_zero_region(
    grid: Seq<CellContent>,
    w: int,
    h: int,
    start: (int, int),
    p: (int, int),
)
    requires
        1 <= w,
        1 <= h,
        in_grid(w, h, start),
        is_zero_at(grid, w, start),
    ensures
        flood_opens(grid, w, h, start, p) <==> (zero_region(grid, w, h, start, p) && !is_mine_at(
            grid,
            w,
            p,
        )),
{
    lemma_flood_visited_is_zero_region(grid, w, h, start, p);
}

} // verus!
