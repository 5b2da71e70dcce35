use vstd::prelude::*;

use crate::direction::Direction;
use crate::fruit::{lemma_unique_cells_bounded, vec_contains};
use crate::pos::{in_bounds, step, Pos};
use crate::snake::{deque_contains_from, Snake};

verus! {

/// A cell that some snake's body covers; such cells are not traversable.
pub open spec fn snake_occupies(snaps: Seq<Snake>, p: Pos) -> bool {
    exists|j: int, k: int|
        0 <= j < snaps.len() && 0 <= k < snaps[j].p@.len() && snaps[j].p@[k] == p
}

/// A traversable cell: on the grid and covered by no snake.
pub open spec fn free_cell(snaps: Seq<Snake>, p: Pos, max_y: int, max_x: int) -> bool {
    in_bounds(p, max_y, max_x) && !snake_occupies(snaps, p)
}

/// One step apart on the 4-connected grid.
pub open spec fn adjacent(a: Pos, b: Pos) -> bool {
    exists|dd: Direction| dd != Direction::Still && step(a, dd) == b
}

/// A walk from `from` along 4-connected steps whose every later cell is
/// traversable; the start cell itself is exempt, being the walk's seed.
pub open spec fn is_path(path: Seq<Pos>, from: Pos, snaps: Seq<Snake>, max_y: int, max_x: int) -> bool {
    &&& path.len() >= 1
    &&& path[0] == from
    &&& forall|i: int|
        1 <= i < path.len() ==> free_cell(snaps, #[trigger] path[i], max_y, max_x) && adjacent(
            path[i - 1],
            path[i],
        )
}

/// `to` can be walked to from `from` across traversable cells.
pub open spec fn reachable(from: Pos, to: Pos, snaps: Seq<Snake>, max_y: int, max_x: int) -> bool {
    exists|path: Seq<Pos>| is_path(path, from, snaps, max_y, max_x) && path.last() == to
}

/// `to` can be walked to from `from` across traversable cells in at most
/// `n` steps.
pub open spec fn reachable_within(
    from: Pos,
    to: Pos,
    snaps: Seq<Snake>,
    max_y: int,
    max_x: int,
    n: int,
) -> bool {
    exists|path: Seq<Pos>|
        is_path(path, from, snaps, max_y, max_x) && path.last() == to && path.len() <= n + 1
}

/// `p` is a nearest fruit: it can be reached from `from` in some number of
/// steps that no fruit at all can be reached in fewer than.
pub open spec fn nearest_found(
    from: Pos,
    p: Pos,
    fruits: Seq<Pos>,
    snaps: Seq<Snake>,
    max_y: int,
    max_x: int,
) -> bool {
    exists|n: int|
        0 <= n && reachable_within(from, p, snaps, max_y, max_x, n) && forall|q: Pos, m: int|
            fruits.contains(q) && 0 <= m < n ==> !reachable_within(from, q, snaps, max_y, max_x, m)
}

/// Whether any snake's body covers `p`.
fn any_snake_occupies(snakes: &Vec<Snake>, p: Pos) -> (r: bool)
    ensures
        r == snake_occupies(snakes@, p),
{
    let mut j: usize = 0;
    while j < snakes.len()
        invariant
            j <= snakes@.len(),
            forall|j2: int, k: int|
                0 <= j2 < j && 0 <= k < snakes@[j2].p@.len() ==> snakes@[j2].p@[k] != p,
        decreases snakes@.len() - j,
    {
        let s = &snakes[j];
        if deque_contains_from(&s.p, 0, p) {
            return true;
        }
        j = j + 1;
    }
    false
}

/// A frontier of distinct cells that all lie on the grid (apart from its
/// seed) can never outgrow the grid.
proof fn lemma_queue_bound(q: Seq<Pos>, max_y: int, max_x: int)
    requires
        max_y >= 0,
        max_x >= 0,
        q.len() >= 1,
        q.no_duplicates(),
        forall|k: int| 1 <= k < q.len() ==> in_bounds(#[trigger] q[k], max_y, max_x),
    ensures
        q.len() <= (max_y + 1) * (max_x + 1) + 1,
{
    let tail = q.subrange(1, q.len() as int);
    assert forall|a: int, b: int|
        0 <= a < tail.len() && 0 <= b < tail.len() && a != b implies tail[a] != tail[b] by {
        assert(tail[a] == q[a + 1]);
        assert(tail[b] == q[b + 1]);
    }
    assert forall|k: int| 0 <= k < tail.len() implies in_bounds(#[trigger] tail[k], max_y, max_x) by {
        assert(tail[k] == q[k + 1]);
    }
    lemma_unique_cells_bounded(tail, max_y, max_x);
}

/// A traversable path grows by one traversable adjacent cell.
proof fn lemma_path_extend(
    path: Seq<Pos>,
    from: Pos,
    snaps: Seq<Snake>,
    max_y: int,
    max_x: int,
    np: Pos,
    dd: Direction,
)
    requires
        is_path(path, from, snaps, max_y, max_x),
        dd != Direction::Still,
        step(path.last(), dd) == np,
        free_cell(snaps, np, max_y, max_x),
    ensures
        is_path(path.push(np), from, snaps, max_y, max_x),
        path.push(np).last() == np,
{
    let p2 = path.push(np);
    assert forall|i: int|
        1 <= i < p2.len() implies free_cell(snaps, #[trigger] p2[i], max_y, max_x) && adjacent(
            p2[i - 1],
            p2[i],
        ) by {
        if i < path.len() {
            assert(p2[i] == path[i]);
            assert(p2[i - 1] == path[i - 1]);
        } else {
            assert(p2[i] == np);
            assert(p2[i - 1] == path.last());
            assert(adjacent(path.last(), np));
        }
    }
}

/// Breadth-first completeness: once every traversable neighbour of every
/// frontier cell is itself in the frontier, the frontier holds every cell
/// a traversable path from the seed can end on.
proof fn lemma_bfs_complete(
    queue: Seq<Pos>,
    from: Pos,
    snaps: Seq<Snake>,
    max_y: int,
    max_x: int,
    path: Seq<Pos>,
)
    requires
        queue.len() >= 1,
        queue[0] == from,
        forall|k: int, dd: Direction|
            0 <= k < queue.len() && dd != Direction::Still && free_cell(
                snaps,
                #[trigger] step(queue[k], dd),
                max_y,
                max_x,
            ) ==> queue.contains(step(queue[k], dd)),
        is_path(path, from, snaps, max_y, max_x),
    ensures
        queue.contains(path.last()),
    decreases path.len(),
{
    if path.len() == 1 {
        assert(path.last() == from);
        assert(queue[0] == from);
        assert(queue.contains(from));
    } else {
        let prefix = path.drop_last();
        assert(is_path(prefix, from, snaps, max_y, max_x)) by {
            assert forall|i: int|
                1 <= i < prefix.len() implies free_cell(
                    snaps,
                    #[trigger] prefix[i],
                    max_y,
                    max_x,
                ) && adjacent(prefix[i - 1], prefix[i]) by {
                assert(prefix[i] == path[i]);
                assert(prefix[i - 1] == path[i - 1]);
            }
        }
        lemma_bfs_complete(queue, from, snaps, max_y, max_x, prefix);
        let prev = prefix.last();
        let lastp = path.last();
        assert(lastp == path[path.len() - 1]);
        assert(prev == path[path.len() - 2]);
        assert(free_cell(snaps, lastp, max_y, max_x) && adjacent(prev, lastp));
        let dd = choose|dd: Direction| dd != Direction::Still && step(prev, dd) == lastp;
        let k = choose|k: int| 0 <= k < queue.len() && queue[k] == prev;
        assert(free_cell(snaps, step(queue[k], dd), max_y, max_x));
        assert(queue.contains(step(queue[k], dd)));
    }
}


/// Breadth-first minimality: while the frontier is dequeued in order of
/// nondecreasing distance labels and every traversable neighbour of a
/// dequeued cell carries a label at most one larger, any walk from the
/// seed either ends on a frontier cell whose label its step count covers,
/// or takes at least as many steps as the cell being dequeued is labelled
/// with.
proof fn lemma_bfs_minimal(
    queue: Seq<Pos>,
    dist: Seq<int>,
    qi: int,
    from: Pos,
    snaps: Seq<Snake>,
    max_y: int,
    max_x: int,
    path: Seq<Pos>,
)
    requires
        queue.len() >= 1,
        dist.len() == queue.len(),
        queue[0] == from,
        dist[0] == 0,
        0 <= qi < queue.len(),
        forall|i: int, j: int| 0 <= i <= j < dist.len() ==> dist[i] <= dist[j],
        forall|k: int, dd: Direction|
            0 <= k < qi && dd != Direction::Still && free_cell(
                snaps,
                #[trigger] step(queue[k], dd),
                max_y,
                max_x,
            ) ==> exists|w: int|
                0 <= w < queue.len() && queue[w] == step(queue[k], dd) && dist[w] <= dist[k] + 1,
        is_path(path, from, snaps, max_y, max_x),
    ensures
        (exists|w: int| 0 <= w < queue.len() && queue[w] == path.last() && dist[w] <= path.len() - 1)
            || path.len() - 1 >= dist[qi],
    decreases path.len(),
{
    if path.len() == 1 {
        assert(queue[0] == path.last() && dist[0] <= path.len() - 1);
    } else {
        let prefix = path.drop_last();
        assert(is_path(prefix, from, snaps, max_y, max_x)) by {
            assert forall|i: int|
                1 <= i < prefix.len() implies free_cell(
                snaps,
                #[trigger] prefix[i],
                max_y,
                max_x,
            ) && adjacent(prefix[i - 1], prefix[i]) by {
                assert(prefix[i] == path[i]);
                assert(prefix[i - 1] == path[i - 1]);
            }
        }
        lemma_bfs_minimal(queue, dist, qi, from, snaps, max_y, max_x, prefix);
        let lastp = path.last();
        let prev = prefix.last();
        assert(lastp == path[path.len() - 1]);
        assert(prev == path[path.len() - 2]);
        assert(free_cell(snaps, lastp, max_y, max_x) && adjacent(prev, lastp));
        if exists|w: int|
            0 <= w < queue.len() && queue[w] == prefix.last() && dist[w] <= prefix.len() - 1 {
            let w1 = choose|w: int|
                0 <= w < queue.len() && queue[w] == prefix.last() && dist[w] <= prefix.len() - 1;
            if w1 < qi {
                let dd = choose|dd: Direction| dd != Direction::Still && step(prev, dd) == lastp;
                assert(free_cell(snaps, step(queue[w1], dd), max_y, max_x));
                let w2 = choose|w: int|
                    0 <= w < queue.len() && queue[w] == step(queue[w1], dd) && dist[w] <= dist[w1]
                        + 1;
                assert(queue[w2] == lastp && dist[w2] <= path.len() - 1);
            } else {
                assert(dist[qi] <= dist[w1]);
                assert(path.len() - 1 >= dist[qi]);
            }
        } else {
            assert(prefix.len() - 1 >= dist[qi]);
        }
    }
}

impl Snake {
    /// Breadth-first search from this snake's head for the nearest fruit
    /// over the 4-connected grid. Cells beyond the grid and cells covered
    /// by a snake body are genuinely not traversable: a covered cell is
    /// never expanded, so a fruit walled in by bodies is reported
    /// unreachable rather than reachable through them. Neighbours are
    /// expanded in the fixed order Left, Right, Up, Down, so among equally
    /// near fruits the first one reached in that expansion order is
    /// returned. `None` means no fruit is reachable, a legitimate outcome,
    /// not an error.
    #[verifier::loop_isolation(false)]
    #[verifier::rlimit(60)]
    pub fn closest_fruit(
        &self,
        max_y: i32,
        max_x: i32,
        fruits: &Vec<Pos>,
        snakes: &Vec<Snake>,
    ) -> (found: Option<Pos>)
        requires
            self.p@.len() >= 1,
            0 <= max_y < i32::MAX,
            0 <= max_x < i32::MAX,
            i32::MIN < self.spec_head().x < i32::MAX,
            i32::MIN < self.spec_head().y < i32::MAX,
        ensures
            found matches Some(p) ==> fruits@.contains(p) && reachable(
                self.spec_head(),
                p,
                snakes@,
                max_y as int,
                max_x as int,
            ) && (p != self.spec_head() ==> free_cell(snakes@, p, max_y as int, max_x as int)),
            // the found fruit is a nearest one: no fruit can be reached in
            // fewer steps than cover it
            found matches Some(p) ==> nearest_found(
                self.spec_head(),
                p,
                fruits@,
                snakes@,
                max_y as int,
                max_x as int,
            ),
            found is None ==> forall|q: Pos| #[trigger]
                fruits@.contains(q) ==> !reachable(
                    self.spec_head(),
                    q,
                    snakes@,
                    max_y as int,
                    max_x as int,
                ),
            fruits@.contains(self.spec_head()) ==> found == Some(self.spec_head()),
    {
        let ghost area = (max_y + 1) as int * (max_x + 1) as int;
        let ghost head_g = self.spec_head();
        let ghost my = max_y as int;
        let ghost mx = max_x as int;
        let mut queue: Vec<Pos> = Vec::new();
        let mut qi: usize = 0;
        let ghost mut dist: Seq<int> = seq![0];
        queue.push(self.head());
        proof {
            let path0 = seq![head_g];
            assert(is_path(path0, head_g, snakes@, my, mx));
            assert(path0.last() == head_g && path0.len() <= 0 + 1);
            assert(reachable_within(head_g, head_g, snakes@, my, mx, 0));
        }
        while qi < queue.len()
            invariant
                1 <= queue@.len() <= area + 1,
                qi <= queue@.len(),
                queue@[0] == head_g,
                queue@.no_duplicates(),
                dist.len() == queue@.len(),
                dist[0] == 0,
                forall|i2: int, j2: int| 0 <= i2 <= j2 < dist.len() ==> dist[i2] <= dist[j2],
                qi < queue@.len() ==> forall|k: int|
                    0 <= k < dist.len() ==> dist[k] <= dist[qi as int] + 1,
                forall|k: int| 1 <= k < queue@.len() ==> free_cell(snakes@, #[trigger] queue@[k], my, mx),
                forall|k: int| 0 <= k < qi ==> !fruits@.contains(#[trigger] queue@[k]),
                forall|k: int|
                    0 <= k < queue@.len() ==> reachable_within(
                        head_g,
                        #[trigger] queue@[k],
                        snakes@,
                        my,
                        mx,
                        dist[k],
                    ),
                forall|k: int, dd: Direction|
                    0 <= k < qi && dd != Direction::Still && free_cell(
                        snakes@,
                        #[trigger] step(queue@[k], dd),
                        my,
                        mx,
                    ) ==> queue@.contains(step(queue@[k], dd)),
                forall|k: int, dd: Direction|
                    0 <= k < qi && dd != Direction::Still && free_cell(
                        snakes@,
                        #[trigger] step(queue@[k], dd),
                        my,
                        mx,
                    ) ==> exists|w: int|
                        0 <= w < queue@.len() && queue@[w] == step(queue@[k], dd) && dist[w]
                            <= dist[k] + 1,
            decreases area + 1 - qi,
        {
            let pos = queue[qi];
            if vec_contains(fruits, pos) {
                proof {
                    let ghost n = dist[qi as int];
                    let path = choose|path: Seq<Pos>|
                        is_path(path, head_g, snakes@, my, mx) && path.last() == pos && path.len()
                            <= n + 1;
                    assert(reachable(head_g, pos, snakes@, my, mx));
                    assert forall|q: Pos, m: int|
                        fruits@.contains(q) && 0 <= m < n implies !reachable_within(
                        head_g,
                        q,
                        snakes@,
                        my,
                        mx,
                        m,
                    ) by {
                        if reachable_within(head_g, q, snakes@, my, mx, m) {
                            let wpath = choose|wpath: Seq<Pos>|
                                is_path(wpath, head_g, snakes@, my, mx) && wpath.last() == q
                                    && wpath.len() <= m + 1;
                            lemma_bfs_minimal(queue@, dist, qi as int, head_g, snakes@, my, mx, wpath);
                            if exists|w: int|
                                0 <= w < queue@.len() && queue@[w] == wpath.last() && dist[w]
                                    <= wpath.len() - 1 {
                                let w = choose|w: int|
                                    0 <= w < queue@.len() && queue@[w] == wpath.last() && dist[w]
                                        <= wpath.len() - 1;
                                assert(w < qi);
                                assert(!fruits@.contains(queue@[w]));
                                assert(false);
                            } else {
                                assert(wpath.len() - 1 >= n);
                                assert(false);
                            }
                        }
                    }
                    assert(0 <= n && reachable_within(head_g, pos, snakes@, my, mx, n));
                    assert(nearest_found(head_g, pos, fruits@, snakes@, my, mx));
                }
                return Some(pos);
            }
            let dirs = Direction::iterator();
            let mut di: usize = 0;
            while di < dirs.len()
                invariant
                    di <= dirs@.len(),
                    1 <= queue@.len() <= area + 1,
                    qi < queue@.len(),
                    queue@[0] == head_g,
                    queue@[qi as int] == pos,
                    !fruits@.contains(pos),
                    queue@.no_duplicates(),
                    dist.len() == queue@.len(),
                    dist[0] == 0,
                    forall|i2: int, j2: int| 0 <= i2 <= j2 < dist.len() ==> dist[i2] <= dist[j2],
                    forall|k: int| 0 <= k < dist.len() ==> dist[k] <= dist[qi as int] + 1,
                    forall|k: int|
                        1 <= k < queue@.len() ==> free_cell(snakes@, #[trigger] queue@[k], my, mx),
                    forall|k: int| 0 <= k < qi ==> !fruits@.contains(#[trigger] queue@[k]),
                    forall|k: int|
                        0 <= k < queue@.len() ==> reachable_within(
                            head_g,
                            #[trigger] queue@[k],
                            snakes@,
                            my,
                            mx,
                            dist[k],
                        ),
                    forall|k: int, dd: Direction|
                        0 <= k < qi && dd != Direction::Still && free_cell(
                            snakes@,
                            #[trigger] step(queue@[k], dd),
                            my,
                            mx,
                        ) ==> queue@.contains(step(queue@[k], dd)),
                    forall|k: int, dd: Direction|
                        0 <= k < qi && dd != Direction::Still && free_cell(
                            snakes@,
                            #[trigger] step(queue@[k], dd),
                            my,
                            mx,
                        ) ==> exists|w: int|
                            0 <= w < queue@.len() && queue@[w] == step(queue@[k], dd) && dist[w]
                                <= dist[k] + 1,
                    forall|d2: int|
                        0 <= d2 < di && free_cell(snakes@, #[trigger] step(pos, dirs@[d2]), my, mx)
                            ==> queue@.contains(step(pos, dirs@[d2])),
                decreases dirs@.len() - di,
            {
                let dir = dirs[di];
                let np = pos.get(dir);
                if !vec_contains(&queue, np) {
                    if !(np.y < 0 || np.x < 0 || np.y > max_y || np.x > max_x) {
                        if !any_snake_occupies(snakes, np) {
                            let ghost pre = queue@;
                            let ghost pre_dist = dist;
                            queue.push(np);
                            proof {
                                dist = dist.push(pre_dist[qi as int] + 1);
                                assert forall|a: int, b: int|
                                    0 <= a < queue@.len() && 0 <= b < queue@.len() && a != b
                                    implies queue@[a] != queue@[b] by {
                                    if a < pre.len() && b < pre.len() {
                                    } else if b == pre.len() {
                                        if queue@[a] == np {
                                            assert(pre[a] == np);
                                            assert(pre.contains(np));
                                        }
                                    } else {
                                        if queue@[b] == np {
                                            assert(pre[b] == np);
                                            assert(pre.contains(np));
                                        }
                                    }
                                }
                                lemma_queue_bound(queue@, my, mx);
                                // the new frontier cell is reachable one step
                                // beyond `pos`
                                let path = choose|path: Seq<Pos>|
                                    is_path(path, head_g, snakes@, my, mx) && path.last() == pos
                                        && path.len() <= pre_dist[qi as int] + 1;
                                lemma_path_extend(path, head_g, snakes@, my, mx, np, dir);
                                assert(path.push(np).len() <= pre_dist[qi as int] + 1 + 1);
                                assert(reachable_within(
                                    head_g,
                                    np,
                                    snakes@,
                                    my,
                                    mx,
                                    pre_dist[qi as int] + 1,
                                ));
                                // membership and labels of older cells survive
                                // the push
                                assert forall|k: int, dd: Direction|
                                    0 <= k < qi && dd != Direction::Still && free_cell(
                                        snakes@,
                                        #[trigger] step(queue@[k], dd),
                                        my,
                                        mx,
                                    ) implies queue@.contains(step(queue@[k], dd)) && exists|w: int|
                                        0 <= w < queue@.len() && queue@[w] == step(queue@[k], dd)
                                            && dist[w] <= dist[k] + 1 by {
                                    assert(queue@[k] == pre[k]);
                                    assert(pre.contains(step(pre[k], dd)));
                                    let w = choose|w: int|
                                        0 <= w < pre.len() && pre[w] == step(pre[k], dd)
                                            && pre_dist[w] <= pre_dist[k] + 1;
                                    assert(queue@[w] == step(queue@[k], dd));
                                    assert(dist[w] <= dist[k] + 1);
                                }
                                assert forall|d2: int|
                                    0 <= d2 < di + 1 && free_cell(
                                        snakes@,
                                        #[trigger] step(pos, dirs@[d2]),
                                        my,
                                        mx,
                                    ) implies queue@.contains(step(pos, dirs@[d2])) by {
                                    if d2 < di {
                                        assert(pre.contains(step(pos, dirs@[d2])));
                                        let w = choose|w: int|
                                            0 <= w < pre.len() && pre[w] == step(pos, dirs@[d2]);
                                        assert(queue@[w] == step(pos, dirs@[d2]));
                                    } else {
                                        assert(queue@[queue@.len() - 1] == np);
                                    }
                                }
                            }
                        } else {
                            proof {
                                assert(!free_cell(snakes@, np, my, mx));
                            }
                        }
                    } else {
                        proof {
                            assert(!in_bounds(np, my, mx));
                        }
                    }
                } else {
                    proof {
                        assert(queue@.contains(np));
                    }
                }
                di = di + 1;
            }
            proof {
                // all four moving directions were expanded, so every
                // traversable neighbour of `pos` now sits in the frontier,
                // with a label at most one beyond `pos`'s
                assert forall|dd: Direction|
                    dd != Direction::Still && free_cell(snakes@, #[trigger] step(pos, dd), my, mx)
                    implies queue@.contains(step(pos, dd)) by {
                    if dd == Direction::Left {
                        assert(dirs@[0] == dd);
                        assert(free_cell(snakes@, step(pos, dirs@[0]), my, mx));
                    } else if dd == Direction::Right {
                        assert(dirs@[1] == dd);
                        assert(free_cell(snakes@, step(pos, dirs@[1]), my, mx));
                    } else if dd == Direction::Up {
                        assert(dirs@[2] == dd);
                        assert(free_cell(snakes@, step(pos, dirs@[2]), my, mx));
                    } else {
                        assert(dirs@[3] == dd);
                        assert(free_cell(snakes@, step(pos, dirs@[3]), my, mx));
                    }
                }
                assert forall|k: int, dd: Direction|
                    0 <= k < qi + 1 && dd != Direction::Still && free_cell(
                        snakes@,
                        #[trigger] step(queue@[k], dd),
                        my,
                        mx,
                    ) implies exists|w: int|
                        0 <= w < queue@.len() && queue@[w] == step(queue@[k], dd) && dist[w]
                            <= dist[k] + 1 by {
                    if k == qi {
                        assert(queue@.contains(step(pos, dd)));
                        let w = choose|w: int| 0 <= w < queue@.len() && queue@[w] == step(pos, dd);
                        assert(dist[w] <= dist[qi as int] + 1);
                    }
                }
            }
            qi = qi + 1;
        }
        proof {
            assert forall|q: Pos| #[trigger]
                fruits@.contains(q) implies !reachable(head_g, q, snakes@, my, mx) by {
                if reachable(head_g, q, snakes@, my, mx) {
                    let path = choose|path: Seq<Pos>|
                        is_path(path, head_g, snakes@, my, mx) && path.last() == q;
                    lemma_bfs_complete(queue@, head_g, snakes@, my, mx, path);
                    let k = choose|k: int| 0 <= k < queue@.len() && queue@[k] == q;
                    assert(!fruits@.contains(queue@[k]));
                }
            }
        }
        None
    }
}

} // verus!
