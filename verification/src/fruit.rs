use vstd::prelude::*;

use vstd::arithmetic::div_mod::{
    lemma_fundamental_div_mod, lemma_fundamental_div_mod_converse, lemma_mod_bound,
};
use vstd::arithmetic::mul::lemma_mul_inequality;
use vstd::set_lib::{lemma_int_range, lemma_len_subset, set_int_range};
use vstd::seq_lib::seq_to_set_is_finite;

use crate::pos::{in_bounds, Pos};
use crate::rng::random_in_range;

verus! {

broadcast use seq_to_set_is_finite;

/// The fruit-field invariant: no two fruits share a cell, and every fruit
/// lies on the grid.
pub open spec fn fruits_ok(fruits: Seq<Pos>, max_y: int, max_x: int) -> bool {
    &&& fruits.no_duplicates()
    &&& forall|i: int| 0 <= i < fruits.len() ==> in_bounds(#[trigger] fruits[i], max_y, max_x)
}

/// The serial number of a grid cell when the grid is read row by row.
pub open spec fn cell_id(p: Pos, max_x: int) -> int {
    p.y * (max_x + 1) + p.x
}

/// Distinct cells of the grid have distinct serial numbers.
proof fn lemma_cell_id_distinct(a: Pos, b: Pos, max_y: int, max_x: int)
    requires
        in_bounds(a, max_y, max_x),
        in_bounds(b, max_y, max_x),
        a != b,
    ensures
        cell_id(a, max_x) != cell_id(b, max_x),
{
    let w = max_x + 1;
    if cell_id(a, max_x) == cell_id(b, max_x) {
        let v = cell_id(a, max_x);
        lemma_fundamental_div_mod_converse(v, w, a.y as int, a.x as int);
        lemma_fundamental_div_mod_converse(v, w, b.y as int, b.x as int);
        assert(a.x == b.x && a.y == b.y);
        assert(false);
    }
}

/// A duplicate-free collection of grid cells holds at most one entry per
/// cell of the grid.
pub proof fn lemma_unique_cells_bounded(cells: Seq<Pos>, max_y: int, max_x: int)
    requires
        max_y >= 0,
        max_x >= 0,
        cells.no_duplicates(),
        forall|i: int| 0 <= i < cells.len() ==> in_bounds(#[trigger] cells[i], max_y, max_x),
    ensures
        cells.len() <= (max_y + 1) * (max_x + 1),
{
    let w = max_x + 1;
    let area = (max_y + 1) * w;
    let ids = cells.map_values(|p: Pos| cell_id(p, max_x));
    assert forall|i: int, j: int|
        0 <= i < ids.len() && 0 <= j < ids.len() && i != j implies ids[i] != ids[j] by {
        lemma_cell_id_distinct(cells[i], cells[j], max_y, max_x);
    }
    ids.unique_seq_to_set();
    assert forall|k: int| ids.to_set().contains(k) implies set_int_range(0, area).contains(k) by {
        let idx = choose|idx: int| 0 <= idx < ids.len() && ids[idx] == k;
        let p = cells[idx];
        assert(0 <= p.y * w + p.x < area) by (nonlinear_arith)
            requires
                0 <= p.x <= max_x,
                0 <= p.y <= max_y,
                w == max_x + 1,
                area == (max_y + 1) * w,
        ;
    }
    lemma_int_range(0, area);
    lemma_len_subset(ids.to_set(), set_int_range(0, area));
}

/// A duplicate-free collection of grid cells that covers every cell of the
/// grid holds at least one entry per cell.
proof fn lemma_full_grid(cells: Seq<Pos>, max_y: int, max_x: int)
    requires
        0 <= max_y <= i32::MAX,
        0 <= max_x <= i32::MAX,
        cells.no_duplicates(),
        forall|i: int| 0 <= i < cells.len() ==> in_bounds(#[trigger] cells[i], max_y, max_x),
        forall|p: Pos| in_bounds(p, max_y, max_x) ==> cells.contains(p),
    ensures
        cells.len() >= (max_y + 1) * (max_x + 1),
{
    let w = max_x + 1;
    let area = (max_y + 1) * w;
    let ids = cells.map_values(|p: Pos| cell_id(p, max_x));
    assert forall|i: int, j: int|
        0 <= i < ids.len() && 0 <= j < ids.len() && i != j implies ids[i] != ids[j] by {
        lemma_cell_id_distinct(cells[i], cells[j], max_y, max_x);
    }
    ids.unique_seq_to_set();
    assert forall|k: int| set_int_range(0, area).contains(k) implies ids.to_set().contains(k) by {
        lemma_mod_bound(k, w);
        lemma_fundamental_div_mod(k, w);
        assert(0 <= k / w <= max_y) by (nonlinear_arith)
            requires
                0 <= k < area,
                w == max_x + 1,
                area == (max_y + 1) * w,
                max_y >= 0,
                k == w * (k / w) + (k % w),
                0 <= k % w < w,
        ;
        let p = Pos { x: (k % w) as i32, y: (k / w) as i32 };
        assert(p.x as int == k % w && p.y as int == k / w);
        assert(in_bounds(p, max_y, max_x));
        assert(cells.contains(p));
        let idx = choose|idx: int| 0 <= idx < cells.len() && cells[idx] == p;
        assert(ids[idx] == p.y * w + p.x);
        assert((k / w) * w == w * (k / w)) by (nonlinear_arith);
        assert(ids[idx] == k);
        assert(ids.contains(k));
    }
    lemma_int_range(0, area);
    lemma_len_subset(set_int_range(0, area), ids.to_set());
}

/// Removing the only occurrence of a fruit from a well-formed field keeps
/// the field well formed and leaves no fruit on the vacated cell.
pub proof fn lemma_remove_fruit(fruits: Seq<Pos>, i: int, max_y: int, max_x: int)
    requires
        fruits_ok(fruits, max_y, max_x),
        0 <= i < fruits.len(),
    ensures
        fruits_ok(fruits.remove(i), max_y, max_x),
        !fruits.remove(i).contains(fruits[i]),
        forall|x: Pos| fruits.remove(i).contains(x) ==> fruits.contains(x),
{
    fruits.remove_ensures(i);
    let rest = fruits.remove(i);
    assert forall|x: Pos| rest.contains(x) implies fruits.contains(x) by {
        let k = choose|k: int| 0 <= k < rest.len() && rest[k] == x;
        if k < i {
            assert(fruits[k] == x);
        } else {
            assert(fruits[k + 1] == x);
        }
    }
    assert forall|k: int| 0 <= k < rest.len() implies rest[k] != fruits[i] by {
        if k < i {
            assert(rest[k] == fruits[k]);
        } else {
            assert(rest[k] == fruits[k + 1]);
        }
    }
    assert forall|a: int, b: int|
        0 <= a < rest.len() && 0 <= b < rest.len() && a != b implies rest[a] != rest[b] by {
        let a0: int = if a < i {
            a
        } else {
            a + 1
        };
        let b0: int = if b < i {
            b
        } else {
            b + 1
        };
        assert(rest[a] == fruits[a0]);
        assert(rest[b] == fruits[b0]);
    }
}

/// Whether `p` occurs among the fruits in `v`.
pub fn vec_contains(v: &Vec<Pos>, p: Pos) -> (r: bool)
    ensures
        r == v@.contains(p),
{
    let mut i: usize = 0;
    while i < v.len()
        invariant
            i <= v@.len(),
            forall|j: int| 0 <= j < i ==> v@[j] != p,
        decreases v@.len() - i,
    {
        if v[i] == p {
            assert(v@[i as int] == p);
            return true;
        }
        i = i + 1;
    }
    false
}

/// The index of the first fruit at `p`, if there is one.
pub fn find_pos(v: &Vec<Pos>, p: Pos) -> (r: Option<usize>)
    ensures
        match r {
            Some(i) => {
                &&& i < v@.len()
                &&& v@[i as int] == p
                &&& forall|j: int| 0 <= j < i ==> v@[j] != p
            },
            None => !v@.contains(p),
        },
{
    let mut i: usize = 0;
    while i < v.len()
        invariant
            i <= v@.len(),
            forall|j: int| 0 <= j < i ==> v@[j] != p,
        decreases v@.len() - i,
    {
        if v[i] == p {
            return Some(i);
        }
        i = i + 1;
    }
    None
}

/// The first grid cell, reading the grid row by row, that holds no fruit.
/// One exists because the fruits are duplicate-free and fewer than the
/// grid's cells.
#[verifier::loop_isolation(false)]
fn first_free_cell(fruits: &Vec<Pos>, max_y: i32, max_x: i32) -> (q: Pos)
    requires
        0 <= max_y < i32::MAX,
        0 <= max_x < i32::MAX,
        fruits_ok(fruits@, max_y as int, max_x as int),
        fruits@.len() < (max_y + 1) * (max_x + 1),
    ensures
        in_bounds(q, max_y as int, max_x as int),
        !fruits@.contains(q),
{
    let mut y: i32 = 0;
    while y <= max_y
        invariant
            0 <= y <= max_y + 1,
            forall|p: Pos|
                in_bounds(p, max_y as int, max_x as int) && p.y < y
                    ==> fruits@.contains(p),
        decreases max_y + 1 - y,
    {
        let mut x: i32 = 0;
        while x <= max_x
            invariant
                0 <= x <= max_x + 1,
                forall|p: Pos|
                    in_bounds(p, max_y as int, max_x as int)
                        && (p.y < y || (p.y == y && p.x < x))
                        ==> fruits@.contains(p),
            decreases max_x + 1 - x,
        {
            let pos = Pos { x, y };
            if !vec_contains(fruits, pos) {
                return pos;
            }
            x = x + 1;
        }
        y = y + 1;
    }
    proof {
        lemma_full_grid(fruits@, max_y as int, max_x as int);
        assert(false);
    }
    Pos { x: 0, y: 0 }
}

/// Draw uniformly random grid cells until one free of fruit turns up,
/// giving up after a bounded number of draws; fruit is sparse relative to
/// the grid, so a draw almost always succeeds at once.
fn pick_free_random(fruits: &Vec<Pos>, max_y: i32, max_x: i32) -> (r: Option<Pos>)
    requires
        max_y >= 0,
        max_x >= 0,
    ensures
        r matches Some(p) ==> in_bounds(p, max_y as int, max_x as int) && !fruits@.contains(p),
{
    let mut tries: usize = 100;
    while tries > 0
        invariant
            max_y >= 0,
            max_x >= 0,
        decreases tries,
    {
        let y = random_in_range(0, max_y);
        let x = random_in_range(0, max_x);
        let pos = Pos { x, y };
        if !vec_contains(fruits, pos) {
            return Some(pos);
        }
        tries = tries - 1;
    }
    None
}

/// Spawn one replacement fruit after the fruit at `eaten` was consumed: a
/// random free cell, or the just-vacated cell itself when the random
/// draws keep landing on fruit.
pub fn spawn_replacement(fruits: &mut Vec<Pos>, eaten: Pos, max_y: i32, max_x: i32) -> (q: Pos)
    requires
        max_y >= 0,
        max_x >= 0,
        !old(fruits)@.contains(eaten),
        in_bounds(eaten, max_y as int, max_x as int),
    ensures
        final(fruits)@ =~= old(fruits)@.push(q),
        in_bounds(q, max_y as int, max_x as int),
        !old(fruits)@.contains(q),
{
    let q = match pick_free_random(fruits, max_y, max_x) {
        Some(p) => p,
        None => eaten,
    };
    fruits.push(q);
    q
}

/// Spawn `n` fruits at random free cells of the grid. A placement whose
/// random draws keep colliding falls back to the first free cell of the
/// grid, so the field always reaches its full count.
pub fn spawn_fruits(n: usize, max_y: i32, max_x: i32) -> (fruits: Vec<Pos>)
    requires
        0 <= max_y < i32::MAX,
        0 <= max_x < i32::MAX,
        n <= (max_y + 1) * (max_x + 1),
    ensures
        fruits@.len() == n,
        fruits_ok(fruits@, max_y as int, max_x as int),
{
    let mut fruits: Vec<Pos> = Vec::new();
    while fruits.len() < n
        invariant
            0 <= max_y < i32::MAX,
            0 <= max_x < i32::MAX,
            n <= (max_y + 1) * (max_x + 1),
            fruits@.len() <= n,
            fruits_ok(fruits@, max_y as int, max_x as int),
        decreases n - fruits@.len(),
    {
        let pos = match pick_free_random(&fruits, max_y, max_x) {
            Some(p) => p,
            None => first_free_cell(&fruits, max_y, max_x),
        };
        fruits.push(pos);
    }
    fruits
}

} // verus!
