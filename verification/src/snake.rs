use vstd::prelude::*;

use std::collections::VecDeque;

use crate::direction::{turned, Direction};
use crate::fruit::{find_pos, fruits_ok, lemma_remove_fruit, spawn_replacement};
use crate::input::{key_direction, Handler, Key};
use crate::pos::{can_step, in_bounds, step, Pos};

verus! {

broadcast use vstd::std_specs::vecdeque::group_vec_dequeue_axioms;

/// One snake: an ordered body of cells (head first), a travel direction,
/// a target length, and an alive/dead flag.
pub struct Snake {
    /// Unique ID.
    pub id: u8,
    /// Body cells, head at the front.
    pub p: VecDeque<Pos>,
    /// Current movement direction.
    pub d: Direction,
    /// Target length: the body grows toward it, one cell per tick.
    pub l: usize,
    /// Colour tag used by the renderer.
    pub c: u8,
    /// Whether the snake has died; a dead snake stays in the world.
    pub dead: bool,
    /// The strategy that steers this snake.
    pub handler: Handler,
}

/// The identity of a snake: everything a tick never changes.
pub open spec fn same_tag(a: Snake, b: Snake) -> bool {
    &&& a.id == b.id
    &&& a.c == b.c
    &&& a.handler == b.handler
}

/// What a body becomes when it advances one tick along `d`, before the
/// tail is trimmed: a new head is prepended unless `d` is `Still`.
pub open spec fn grown_from(body: Seq<Pos>, d: Direction) -> Seq<Pos> {
    if d != Direction::Still {
        seq![step(body[0], d)] + body
    } else {
        body
    }
}

impl Snake {
    /// Well-formedness: the body is never empty, never runs more than one
    /// cell past the target length, the target is positive, and a dead
    /// snake no longer travels.
    pub open spec fn inv(self) -> bool {
        &&& 1 <= self.p@.len()
        &&& self.p@.len() <= self.l + 1
        &&& 1 <= self.l
        &&& (self.dead ==> self.d == Direction::Still)
    }

    /// The head cell, in specifications.
    pub open spec fn spec_head(self) -> Pos {
        self.p@[0]
    }

    /// Make a live snake out of a single head cell.
    pub fn new(id: u8, start: Pos, d: Direction, l: usize, c: u8, handler: Handler) -> (s: Snake)
        requires
            1 <= l,
        ensures
            s.inv(),
            s.id == id,
            s.p@ =~= seq![start],
            s.d == d,
            s.l == l,
            s.c == c,
            !s.dead,
            s.handler == handler,
    {
        let mut p: VecDeque<Pos> = VecDeque::new();
        p.push_front(start);
        Snake { id, p, d, l, c, dead: false, handler }
    }

    /// The head cell.
    pub fn head(&self) -> (h: Pos)
        requires
            self.p@.len() >= 1,
        ensures
            h == self.spec_head(),
    {
        self.p[0]
    }

    /// A copy of this snake, taken before a tick so that collision checks
    /// are order-independent within the tick.
    pub fn snapshot(&self) -> (s: Snake)
        ensures
            s.p@ =~= self.p@,
            s.d == self.d,
            s.l == self.l,
            s.dead == self.dead,
            same_tag(s, *self),
    {
        let mut p: VecDeque<Pos> = VecDeque::new();
        let mut i: usize = 0;
        while i < self.p.len()
            invariant
                i <= self.p@.len(),
                p@ =~= self.p@.subrange(0, i as int),
            decreases self.p@.len() - i,
        {
            p.push_back(self.p[i]);
            i = i + 1;
        }
        proof {
            assert(p@ =~= self.p@);
        }
        Snake {
            id: self.id,
            p,
            d: self.d,
            l: self.l,
            c: self.c,
            dead: self.dead,
            handler: self.handler,
        }
    }

    /// Adopt `dir` unless it is the exact reverse of the current direction,
    /// in which case the request is silently ignored (the turn restriction:
    /// a snake may never reverse into its own neck in a single tick).
    pub fn set_dir(&mut self, dir: Direction)
        ensures
            final(self).d == turned(old(self).d, dir),
            final(self).p == old(self).p,
            final(self).l == old(self).l,
            final(self).dead == old(self).dead,
            same_tag(*final(self), *old(self)),
    {
        match dir {
            Direction::Up => {
                if self.d != Direction::Down {
                    self.d = dir;
                }
            },
            Direction::Down => {
                if self.d != Direction::Up {
                    self.d = dir;
                }
            },
            Direction::Left => {
                if self.d != Direction::Right {
                    self.d = dir;
                }
            },
            Direction::Right => {
                if self.d != Direction::Left {
                    self.d = dir;
                }
            },
            Direction::Still => self.d = dir,
        }
    }

    /// Apply one keypress: movement keys request a direction change
    /// (still subject to the turn restriction); any other key is a no-op.
    pub fn set_dir_from_input(&mut self, k: Key)
        ensures
            final(self).d == (match key_direction(k) {
                Some(dir) => turned(old(self).d, dir),
                None => old(self).d,
            }),
            final(self).p == old(self).p,
            final(self).l == old(self).l,
            final(self).dead == old(self).dead,
            same_tag(*final(self), *old(self)),
    {
        match k {
            Key::Up => self.set_dir(Direction::Up),
            Key::Left => self.set_dir(Direction::Left),
            Key::Down => self.set_dir(Direction::Down),
            Key::Right => self.set_dir(Direction::Right),
            Key::Char(c) => {
                if c == 'w' {
                    self.set_dir(Direction::Up);
                } else if c == 'a' {
                    self.set_dir(Direction::Left);
                } else if c == 's' {
                    self.set_dir(Direction::Down);
                } else if c == 'd' {
                    self.set_dir(Direction::Right);
                }
            },
        }
    }

    /// What the body becomes when the snake advances one tick, before the
    /// tail is trimmed: a new head is prepended unless the snake is still.
    pub open spec fn grown_body(self) -> Seq<Pos> {
        grown_from(self.p@, self.d)
    }

    /// Advance one tick: step the head along the current direction and,
    /// when the body would exceed the target length, trim the tail and
    /// report the vacated cell so that the renderer can clear it.
    pub fn mv(&mut self) -> (vacated: Option<Pos>)
        requires
            old(self).inv(),
            old(self).d != Direction::Still ==> can_step(old(self).spec_head(), old(self).d),
        ensures
            final(self).inv(),
            final(self).d == old(self).d,
            final(self).l == old(self).l,
            final(self).dead == old(self).dead,
            same_tag(*final(self), *old(self)),
            ({
                let grown = old(self).grown_body();
                if grown.len() > old(self).l {
                    &&& final(self).p@ =~= grown.drop_last()
                    &&& vacated == Some(grown.last())
                } else {
                    &&& final(self).p@ =~= grown
                    &&& vacated == None::<Pos>
                }
            }),
    {
        let head = self.head();
        match self.d {
            Direction::Still => (),
            _ => self.p.push_front(head.get(self.d)),
        }
        if self.p.len() > self.l {
            self.p.pop_back()
        } else {
            None
        }
    }

    /// The snake dies: it stops travelling and is flagged dead. Death is
    /// terminal; the body stays in the world as an obstacle.
    pub fn die(&mut self)
        ensures
            final(self).d == Direction::Still,
            final(self).dead,
            final(self).p == old(self).p,
            final(self).l == old(self).l,
            same_tag(*final(self), *old(self)),
    {
        self.d = Direction::Still;
        self.dead = true;
    }

    /// The body length reached so far.
    pub fn length(&self) -> (n: usize)
        ensures
            n == self.p@.len(),
    {
        self.p.len()
    }
}

/// Whether `head` collides with the snapshot snake `s`: with any of its
/// body cells if it is another snake, or with any body cell behind the
/// old head if it is the moving snake's own pre-move copy (the old head
/// cell is excluded, since the head has just left it).
pub open spec fn snap_hit(s: Snake, id: u8, head: Pos) -> bool {
    exists|k: int|
        (if s.id == id {
            1int
        } else {
            0int
        }) <= k < s.p@.len() && s.p@[k] == head
}

/// Whether `head` collides with any of the first `n` snakes of the
/// pre-tick snapshot.
pub open spec fn hits_snapshot_upto(head: Pos, id: u8, snaps: Seq<Snake>, n: int) -> bool {
    exists|j: int| 0 <= j < n && snap_hit(#[trigger] snaps[j], id, head)
}

/// Whether `head` collides with any snake of the pre-tick snapshot.
pub open spec fn hits_snapshot(head: Pos, id: u8, snaps: Seq<Snake>) -> bool {
    hits_snapshot_upto(head, id, snaps, snaps.len() as int)
}

/// Collision against a snapshot reads only each snake's ID and body, so an
/// element-wise copy of the snapshot sees exactly the same collisions.
pub proof fn lemma_hits_snapshot_congruent(head: Pos, id: u8, a: Seq<Snake>, b: Seq<Snake>)
    requires
        a.len() == b.len(),
        forall|j: int| 0 <= j < a.len() ==> (#[trigger] a[j]).id == b[j].id && a[j].p@ == b[j].p@,
    ensures
        hits_snapshot(head, id, a) == hits_snapshot(head, id, b),
{
    assert forall|j: int|
        0 <= j < a.len() implies snap_hit(#[trigger] a[j], id, head) == snap_hit(
        b[j],
        id,
        head,
    ) by {
        if snap_hit(a[j], id, head) {
            let k = choose|k: int|
                (if a[j].id == id {
                    1int
                } else {
                    0int
                }) <= k < a[j].p@.len() && a[j].p@[k] == head;
            assert(b[j].p@[k] == head);
            assert(snap_hit(b[j], id, head));
        }
        if snap_hit(b[j], id, head) {
            let k = choose|k: int|
                (if b[j].id == id {
                    1int
                } else {
                    0int
                }) <= k < b[j].p@.len() && b[j].p@[k] == head;
            assert(a[j].p@[k] == head);
            assert(snap_hit(a[j], id, head));
        }
    }
    if hits_snapshot(head, id, a) {
        let j = choose|j: int| 0 <= j < a.len() && snap_hit(#[trigger] a[j], id, head);
        assert(snap_hit(b[j], id, head));
        assert(hits_snapshot(head, id, b));
    }
    if hits_snapshot(head, id, b) {
        let j = choose|j: int| 0 <= j < b.len() && snap_hit(#[trigger] b[j], id, head);
        assert(snap_hit(a[j], id, head));
        assert(hits_snapshot(head, id, a));
    }
}

impl Snake {
    /// Resolve this snake's collisions for one tick against the pre-tick
    /// snapshot `snakes`, and let it eat: leaving the grid, or hitting a
    /// snapshot body cell, kills it; a fruit under the new head is
    /// consumed, the target length grows by two, and exactly one
    /// replacement fruit is spawned on a cell that holds none. Already
    /// being dead makes the whole resolution a no-op. Returns the newly
    /// spawned fruit, for the renderer.
    #[verifier::loop_isolation(false)]
    pub fn collision(
        &mut self,
        max_y: i32,
        max_x: i32,
        fruits: &mut Vec<Pos>,
        snakes: &Vec<Snake>,
    ) -> (new_fruit: Option<Pos>)
        requires
            old(self).inv(),
            old(self).l + 2 <= usize::MAX,
            max_y >= 0,
            max_x >= 0,
            fruits_ok(old(fruits)@, max_y as int, max_x as int),
        ensures
            final(self).inv(),
            same_tag(*final(self), *old(self)),
            final(self).p == old(self).p,
            fruits_ok(final(fruits)@, max_y as int, max_x as int),
            final(fruits)@.len() == old(fruits)@.len(),
            old(self).dead ==> *final(self) == *old(self) && final(fruits)@ == old(fruits)@
                && new_fruit == None::<Pos>,
            !old(self).dead ==> ({
                let head = old(self).spec_head();
                let died = !in_bounds(head, max_y as int, max_x as int) || hits_snapshot(
                    head,
                    old(self).id,
                    snakes@,
                );
                let ate = old(fruits)@.contains(head);
                &&& final(self).dead == died
                &&& final(self).d == (if died {
                    Direction::Still
                } else {
                    old(self).d
                })
                &&& (ate ==> final(self).l == old(self).l + 2)
                &&& (!ate ==> final(self).l == old(self).l)
                &&& (ate ==> ({
                    let rest = old(fruits)@.remove_value(head);
                    &&& new_fruit matches Some(q) && final(fruits)@ =~= rest.push(q)
                        && in_bounds(q, max_y as int, max_x as int) && !rest.contains(q)
                }))
                &&& (!ate ==> final(fruits)@ == old(fruits)@ && new_fruit == None::<Pos>)
            }),
    {
        if self.dead {
            return None;
        }
        let head = self.head();
        if head.y < 0 || head.x < 0 || head.y > max_y || head.x > max_x {
            self.die();
        }
        let mut j: usize = 0;
        while j < snakes.len()
            invariant
                j <= snakes@.len(),
                self.p == old(self).p,
                self.l == old(self).l,
                same_tag(*self, *old(self)),
                self.dead == (!in_bounds(old(self).spec_head(), max_y as int, max_x as int)
                    || hits_snapshot_upto(
                    old(self).spec_head(),
                    old(self).id,
                    snakes@,
                    j as int,
                )),
                self.d == (if self.dead {
                    Direction::Still
                } else {
                    old(self).d
                }),
            decreases snakes@.len() - j,
        {
            let s = &snakes[j];
            let start: usize = if s.id == self.id {
                1
            } else {
                0
            };
            if deque_contains_from(&s.p, start, head) {
                self.die();
                proof {
                    assert(snap_hit(snakes@[j as int], old(self).id, head));
                }
            } else {
                proof {
                    assert(!snap_hit(snakes@[j as int], old(self).id, head));
                    if hits_snapshot_upto(head, old(self).id, snakes@, j as int + 1) {
                        let j2 = choose|j2: int|
                            0 <= j2 < j + 1 && snap_hit(#[trigger] snakes@[j2], old(self).id, head);
                        assert(j2 == j || hits_snapshot_upto(head, old(self).id, snakes@, j as int));
                    }
                }
            }
            j = j + 1;
        }
        let eaten = find_pos(fruits, head);
        match eaten {
            Some(i) => {
                self.l = self.l + 2;
                let _removed = fruits.remove(i);
                proof {
                    let pre = old(fruits)@;
                    pre.index_of_first_ensures(head);
                    let ii = pre.index_of_first(head)->Some_0;
                    assert(pre[i as int] == head);
                    assert(ii == i as int);
                    assert(fruits@ == pre.remove_value(head));
                    lemma_remove_fruit(pre, i as int, max_y as int, max_x as int);
                }
                let q = spawn_replacement(fruits, head, max_y, max_x);
                proof {
                    let rest = old(fruits)@.remove_value(head);
                    assert forall|a: int, b: int|
                        0 <= a < fruits@.len() && 0 <= b < fruits@.len() && a != b
                        implies fruits@[a] != fruits@[b] by {
                        if a < rest.len() && b < rest.len() {
                        } else if a == rest.len() {
                            assert(fruits@[b] == rest[b]);
                        } else {
                            assert(fruits@[a] == rest[a]);
                        }
                    }
                }
                Some(q)
            },
            None => None,
        }
    }
}

/// Whether `p` occurs in `v` at an index of `from` or beyond.
pub fn deque_contains_from(v: &VecDeque<Pos>, from: usize, p: Pos) -> (r: bool)
    ensures
        r == exists|k: int| from <= k < v@.len() && v@[k] == p,
{
    let mut k = from;
    while k < v.len()
        invariant
            from <= k,
            forall|j: int| from <= j < k ==> v@[j] != p,
        decreases v@.len() - k,
    {
        if v[k] == p {
            return true;
        }
        k = k + 1;
    }
    false
}

} // verus!
