//! Directions and the movement of the cursor over a torus.

use rand::Rng;
use vstd::arithmetic::div_mod::{
    lemma_fundamental_div_mod, lemma_fundamental_div_mod_converse, lemma_mod_bound,
};
use vstd::prelude::*;

verus! {

/// The four directions the cursor can travel in.
#[derive(Copy, Clone, Debug, PartialEq, Eq, Structural)]
pub enum Dir {
    /// Towards higher columns.
    Rht,
    /// Towards lower columns.
    Lft,
    /// Towards lower rows.
    Upp,
    /// Towards higher rows.
    Dwn,
}

impl Default for Dir {
    /// The cursor starts out travelling right.
    fn default() -> (dir: Dir)
        ensures
            dir == Dir::Rht,
    {
        Dir::Rht
    }
}

/// `x` reduced to the range of an axis with `n` cells; an axis without cells
/// has only the coordinate 0.
pub open spec fn wrap(x: int, n: int) -> int {
    if n > 0 {
        x % n
    } else {
        0
    }
}

/// The cell one step from `pos` in direction `dir` on a torus of
/// `size.0` rows and `size.1` columns. Positions and sizes are
/// `(row, column)`.
pub open spec fn next_pos(dir: Dir, pos: (int, int), size: (int, int)) -> (int, int) {
    match dir {
        Dir::Rht => (pos.0, wrap(pos.1 + 1, size.1)),
        Dir::Lft => (pos.0, wrap(pos.1 - 1, size.1)),
        Dir::Upp => (wrap(pos.0 - 1, size.0), pos.1),
        Dir::Dwn => (wrap(pos.0 + 1, size.0), pos.1),
    }
}

/// The number of cells on the axis that `dir` travels along.
pub open spec fn lap(dir: Dir, size: (int, int)) -> int {
    match dir {
        Dir::Rht | Dir::Lft => size.1,
        Dir::Upp | Dir::Dwn => size.0,
    }
}

/// The cell reached from `pos` by `steps` steps in direction `dir`.
pub open spec fn travel(dir: Dir, pos: (int, int), size: (int, int), steps: nat) -> (int, int)
    decreases steps,
{
    if steps == 0 {
        pos
    } else {
        next_pos(dir, travel(dir, pos, size, (steps - 1) as nat), size)
    }
}

/// The remainders of the two neighbours of `x` from the remainder of `x`.
proof fn lemma_mod_neighbours(x: int, n: int)
    requires
        n > 0,
        x >= 0,
    ensures
        (x + 1) % n == if x % n == n - 1 {
            0
        } else {
            x % n + 1
        },
        (x - 1) % n == if x % n == 0 {
            n - 1
        } else {
            x % n - 1
        },
{
    lemma_fundamental_div_mod(x, n);
    lemma_mod_bound(x, n);
    let q = x / n;
    let m = x % n;
    assert(x == q * n + m) by (nonlinear_arith)
        requires
            x == n * q + m,
    ;
    if m == n - 1 {
        assert(x + 1 == (q + 1) * n + 0) by (nonlinear_arith)
            requires
                x == q * n + m,
                m == n - 1,
        ;
        lemma_fundamental_div_mod_converse(x + 1, n, q + 1, 0);
    } else {
        lemma_fundamental_div_mod_converse(x + 1, n, q, m + 1);
    }
    if m == 0 {
        assert(x - 1 == (q - 1) * n + (n - 1)) by (nonlinear_arith)
            requires
                x == q * n + m,
                m == 0,
        ;
        lemma_fundamental_div_mod_converse(x - 1, n, q - 1, n - 1);
    } else {
        lemma_fundamental_div_mod_converse(x - 1, n, q, m - 1);
    }
}

/// One coordinate moved up by one on an axis of `n` cells.
fn step_up(x: usize, n: usize) -> (y: usize)
    ensures
        y == wrap(x + 1, n as int),
        n > 0 ==> y < n,
{
    if n == 0 {
        0
    } else {
        let m = x % n;
        proof {
            lemma_mod_neighbours(x as int, n as int);
        }
        if m == n - 1 {
            0
        } else {
            m + 1
        }
    }
}

/// One coordinate moved down by one on an axis of `n` cells.
fn step_down(x: usize, n: usize) -> (y: usize)
    ensures
        y == wrap(x - 1, n as int),
        n > 0 ==> y < n,
{
    if n == 0 {
        0
    } else {
        let m = x % n;
        proof {
            lemma_mod_neighbours(x as int, n as int);
        }
        if m == 0 {
            n - 1
        } else {
            m - 1
        }
    }
}

/// Moves the cursor `pos` one cell in direction `dir` on a grid of
/// `size.0` rows and `size.1` columns, re-entering from the opposite edge
/// where it leaves the grid.
pub fn mv_cur(dir: Dir, pos: &mut (usize, usize), size: (usize, usize))
    ensures
        (final(pos).0 as int, final(pos).1 as int) == next_pos(
            dir,
            (old(pos).0 as int, old(pos).1 as int),
            (size.0 as int, size.1 as int),
        ),
        size.0 > 0 && matches!(dir, Dir::Upp | Dir::Dwn) ==> final(pos).0 < size.0,
        size.1 > 0 && matches!(dir, Dir::Rht | Dir::Lft) ==> final(pos).1 < size.1,
{
    match dir {
        Dir::Rht => {
            pos.1 = step_up(pos.1, size.1);
        },
        Dir::Lft => {
            pos.1 = step_down(pos.1, size.1);
        },
        Dir::Upp => {
            pos.0 = step_down(pos.0, size.0);
        },
        Dir::Dwn => {
            pos.0 = step_up(pos.0, size.0);
        },
    }
}

/// A number from `low` up to, but not including, `high`, drawn by
/// `rand::Rng::gen_range` from the generator that `rand::thread_rng` hands
/// out. The range is not empty, so `gen_range` does not panic on it, and
/// what it returns lies in the range. Nothing is said of which number it
/// is. `thread_rng` panics where the system has no randomness to seed it
/// with.
#[verifier::external_body]
fn random_in(low: u32, high: u32) -> (r: u32)
    requires
        low < high,
    ensures
        low <= r < high,
{
    rand::thread_rng().gen_range(low..high)
}

impl Dir {
    /// The direction numbered `index`: 0 right, 1 left, 2 up, anything
    /// else down.
    pub open spec fn of_index(index: u32) -> Dir {
        if index == 0 {
            Dir::Rht
        } else if index == 1 {
            Dir::Lft
        } else if index == 2 {
            Dir::Upp
        } else {
            Dir::Dwn
        }
    }

    /// The direction numbered `index`.
    pub fn from_index(index: u32) -> (dir: Dir)
        ensures
            dir == Dir::of_index(index),
    {
        match index {
            0 => Dir::Rht,
            1 => Dir::Lft,
            2 => Dir::Upp,
            _ => Dir::Dwn,
        }
    }

    /// One of the four directions, drawn at random, each as likely as the
    /// others.
    pub fn random() -> (dir: Dir) {
        Dir::from_index(random_in(0, 4))
    }
}

} // verus!
