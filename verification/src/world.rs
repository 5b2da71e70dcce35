use vstd::prelude::*;

use crate::direction::Direction;
use crate::fruit::fruits_ok;
use crate::input::{forbidden_dir, handle_input, human_steer, Handler, Key};
use crate::pos::{in_bounds, Pos};
use crate::snake::{
    grown_from, hits_snapshot, lemma_hits_snapshot_congruent, same_tag, Snake,
};

verus! {

/// What one tick asks of a snake at its start: well-formed, with room for
/// the head to step and for the target length to grow within machine
/// integers.
pub open spec fn tick_ready(s: Snake) -> bool {
    &&& s.inv()
    &&& s.l + 2 <= usize::MAX
    &&& i32::MIN < s.spec_head().x < i32::MAX
    &&& i32::MIN < s.spec_head().y < i32::MAX
}

/// What one tick guarantees of each snake: still well-formed, the same
/// identity, and death preserved — a snake that was dead going in stays
/// dead, keeps standing still, and keeps its target length.
pub open spec fn tick_post(pre: Snake, post: Snake) -> bool {
    &&& post.inv()
    &&& same_tag(post, pre)
    &&& (pre.dead ==> post.dead && post.d == Direction::Still && post.l == pre.l)
}

/// The direction a snake's steering strategy may leave it with for the
/// tick, given the tick's single optional keypress: a human snake steers
/// exactly by the key and the turn restriction; the random strategy never
/// starts a stopped snake and never leaves a moving one headed off the
/// grid's edge.
pub open spec fn steered_dir_ok(
    pre: Snake,
    d: Direction,
    key: Option<Key>,
    max_y: int,
    max_x: int,
) -> bool {
    match pre.handler {
        Handler::Human => d == human_steer(pre.dead, pre.d, key),
        Handler::RandomAi => {
            &&& (pre.d == Direction::Still ==> d == Direction::Still)
            &&& (pre.d != Direction::Still ==> d != Direction::Still && !forbidden_dir(
                d,
                pre.spec_head(),
                max_y,
                max_x,
            ))
        },
    }
}

/// One snake's whole tick, given the direction `d` its strategy left it
/// with: the body grows along `d` and the tail is trimmed when it would
/// exceed the target, with the vacated cell reported; the snake dies
/// exactly when its new head leaves the grid or lands on the pre-tick
/// snapshot `snaps` (its own old head excluded); it eats exactly when the
/// new head lies on the then-current fruit field `fruits0`, growing its
/// target by two and turning `fruits0` into `fruits1` by removing the
/// eaten fruit and spawning one fresh in-bounds fruit. A snake that was
/// already dead stands still through all of it and nothing changes but a
/// possible tail trim.
pub open spec fn tick_step(
    pre: Snake,
    d: Direction,
    snaps: Seq<Snake>,
    fruits0: Seq<Pos>,
    fruits1: Seq<Pos>,
    post: Snake,
    vac: Option<Pos>,
    max_y: int,
    max_x: int,
) -> bool {
    let grown = grown_from(pre.p@, d);
    let trimmed = grown.len() > pre.l;
    let body1 = if trimmed {
        grown.drop_last()
    } else {
        grown
    };
    let h = body1[0];
    let died = !pre.dead && (!in_bounds(h, max_y, max_x) || hits_snapshot(h, pre.id, snaps));
    let ate = !pre.dead && fruits0.contains(h);
    &&& same_tag(post, pre)
    &&& post.p@ == body1
    &&& vac == (if trimmed {
        Some(grown.last())
    } else {
        None::<Pos>
    })
    &&& post.dead == (pre.dead || died)
    &&& post.d == (if died {
        Direction::Still
    } else {
        d
    })
    &&& (ate ==> post.l == pre.l + 2)
    &&& (!ate ==> post.l == pre.l)
    &&& (ate ==> exists|q: Pos|
        fruits1 == fruits0.remove_value(h).push(q) && in_bounds(q, max_y, max_x)
            && !fruits0.remove_value(h).contains(q))
    &&& (!ate ==> fruits1 == fruits0)
}

/// A whole tick over the world: `dirs` holds the direction each snake's
/// strategy left it with, and `chain` the fruit field before and after
/// each snake's resolution; every snake's transition is `tick_step`
/// against the pre-tick snapshot `pres` and its link of the fruit chain.
pub open spec fn tick_relation(
    pres: Seq<Snake>,
    posts: Seq<Snake>,
    vacs: Seq<Option<Pos>>,
    key: Option<Key>,
    fruits0: Seq<Pos>,
    fruits1: Seq<Pos>,
    dirs: Seq<Direction>,
    chain: Seq<Seq<Pos>>,
    max_y: int,
    max_x: int,
) -> bool {
    &&& posts.len() == pres.len()
    &&& vacs.len() == pres.len()
    &&& dirs.len() == pres.len()
    &&& chain.len() == pres.len() + 1
    &&& chain[0] == fruits0
    &&& chain[pres.len() as int] == fruits1
    &&& forall|k: int|
        0 <= k < pres.len() ==> steered_dir_ok(#[trigger] pres[k], dirs[k], key, max_y, max_x)
            && tick_step(
            pres[k],
            dirs[k],
            pres,
            chain[k],
            chain[k + 1],
            posts[k],
            vacs[k],
            max_y,
            max_x,
        )
}

/// One simulation tick. Every snake, in a fixed order, runs its steering
/// strategy on the tick's single optional keypress, advances one step, and
/// resolves collisions and fruit consumption against the snapshot of all
/// snakes taken at the start of the tick, so that resolution is
/// order-independent. Returns, per snake, the tail cell it vacated, for
/// the renderer to clear. The final clause pins the whole tick: there are
/// steered directions and a chain of fruit fields under which every
/// snake's movement, death, growth and consumption is exactly `tick_step`.
#[verifier::loop_isolation(false)]
pub fn tick(
    snakes: &mut Vec<Snake>,
    fruits: &mut Vec<Pos>,
    max_y: i32,
    max_x: i32,
    key: Option<Key>,
) -> (vacated: Vec<Option<Pos>>)
    requires
        max_y >= 1,
        max_x >= 1,
        fruits_ok(old(fruits)@, max_y as int, max_x as int),
        forall|k: int| 0 <= k < old(snakes)@.len() ==> tick_ready(#[trigger] old(snakes)@[k]),
    ensures
        final(snakes)@.len() == old(snakes)@.len(),
        vacated@.len() == old(snakes)@.len(),
        forall|k: int|
            0 <= k < final(snakes)@.len() ==> tick_post(
                old(snakes)@[k],
                #[trigger] final(snakes)@[k],
            ),
        fruits_ok(final(fruits)@, max_y as int, max_x as int),
        final(fruits)@.len() == old(fruits)@.len(),
        exists|dirs: Seq<Direction>, chain: Seq<Seq<Pos>>|
            tick_relation(
                old(snakes)@,
                final(snakes)@,
                vacated@,
                key,
                old(fruits)@,
                final(fruits)@,
                dirs,
                chain,
                max_y as int,
                max_x as int,
            ),
{
    let ghost my = max_y as int;
    let ghost mx = max_x as int;
    let ghost pres = old(snakes)@;
    // pre-tick snapshot: collision resolution reads only this
    let mut snaps: Vec<Snake> = Vec::new();
    let mut i: usize = 0;
    while i < snakes.len()
        invariant
            i <= snakes@.len(),
            snaps@.len() == i,
            forall|k: int|
                0 <= k < i ==> (#[trigger] snaps@[k]).id == snakes@[k].id && snaps@[k].p@
                    == snakes@[k].p@,
        decreases snakes@.len() - i,
    {
        let s = &snakes[i];
        snaps.push(s.snapshot());
        i = i + 1;
    }
    let mut vacated: Vec<Option<Pos>> = Vec::new();
    let ghost mut dirs: Seq<Direction> = Seq::empty();
    let ghost mut chain: Seq<Seq<Pos>> = seq![old(fruits)@];
    let mut i: usize = 0;
    while i < snakes.len()
        invariant
            i <= pres.len(),
            snakes@.len() == pres.len(),
            snaps@.len() == pres.len(),
            forall|k: int|
                0 <= k < pres.len() ==> (#[trigger] snaps@[k]).id == pres[k].id && snaps@[k].p@
                    == pres[k].p@,
            vacated@.len() == i,
            dirs.len() == i,
            chain.len() == i + 1,
            chain[0] == old(fruits)@,
            chain[i as int] == fruits@,
            fruits_ok(fruits@, my, mx),
            fruits@.len() == old(fruits)@.len(),
            forall|k: int| i <= k < pres.len() ==> snakes@[k] == pres[k],
            forall|k: int| 0 <= k < i ==> tick_post(pres[k], #[trigger] snakes@[k]),
            forall|k: int|
                0 <= k < i ==> steered_dir_ok(#[trigger] pres[k], dirs[k], key, my, mx)
                    && tick_step(
                    pres[k],
                    dirs[k],
                    pres,
                    chain[k],
                    chain[k + 1],
                    snakes@[k],
                    vacated@[k],
                    my,
                    mx,
                ),
        decreases pres.len() - i,
    {
        let ghost pre_iter = snakes@;
        let ghost fruits_pre = fruits@;
        let mut s = snakes.remove(i);
        handle_input(&mut s, max_y, max_x, key);
        let ghost dk = s.d;
        let _vac = s.mv();
        let _new_fruit = s.collision(max_y, max_x, fruits, &snaps);
        snakes.insert(i, s);
        vacated.push(_vac);
        proof {
            dirs = dirs.push(dk);
            chain = chain.push(fruits@);
            assert(snakes@ =~= pre_iter.update(i as int, s));
            assert(steered_dir_ok(pres[i as int], dk, key, my, mx));
            let grown = grown_from(pres[i as int].p@, dk);
            let trimmed = grown.len() > pres[i as int].l;
            let body1 = if trimmed {
                grown.drop_last()
            } else {
                grown
            };
            assert(s.p@ == body1);
            let h = body1[0];
            lemma_hits_snapshot_congruent(h, pres[i as int].id, snaps@, pres);
            if let Some(q) = _new_fruit {
                assert(fruits_pre.contains(h) && !pres[i as int].dead ==> fruits@
                    == fruits_pre.remove_value(h).push(q) && in_bounds(q, my, mx)
                    && !fruits_pre.remove_value(h).contains(q));
            }
            assert(tick_step(pres[i as int], dk, pres, fruits_pre, fruits@, s, _vac, my, mx));
        }
        i = i + 1;
    }
    proof {
        assert(tick_relation(
            pres,
            snakes@,
            vacated@,
            key,
            old(fruits)@,
            fruits@,
            dirs,
            chain,
            my,
            mx,
        ));
    }
    vacated
}

} // verus!
