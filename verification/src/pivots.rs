//! Reduction of a cell path to the cells where it turns.

use vstd::prelude::*;
use crate::grid::V2;

verus! {

/// The direction in which a slope runs: `1` upward, `-1` downward, `0` for a
/// level step.
pub open spec fn slope_sign(dx: int, dy: int) -> int {
    if dy == 0 {
        0
    } else if (dx > 0) == (dy > 0) {
        1
    } else {
        -1
    }
}

/// The magnitude of `d`.
pub open spec fn magnitude(d: int) -> nat {
    if d >= 0 {
        d as nat
    } else {
        (-d) as nat
    }
}

/// Whether the steps `(dx1, dy1)` and `(dx2, dy2)` have the same slope, rise
/// over run. A step that stays in place has no slope and equals nothing. Two
/// steps straight along the column agree when they point the same way; one
/// such step never agrees with a step that leaves the column.
pub open spec fn same_slope(dx1: int, dy1: int, dx2: int, dy2: int) -> bool {
    if (dx1 == 0 && dy1 == 0) || (dx2 == 0 && dy2 == 0) {
        false
    } else if dx1 == 0 || dx2 == 0 {
        dx1 == 0 && dx2 == 0 && (dy1 > 0) == (dy2 > 0)
    } else {
        slope_sign(dx1, dy1) == slope_sign(dx2, dy2) && magnitude(dy1) * magnitude(dx2)
            == magnitude(dy2) * magnitude(dx1)
    }
}

/// Whether the path `p` changes slope at its cell `i`.
pub open spec fn turns_at(p: Seq<V2>, i: int) -> bool {
    !same_slope(
        p[i].x - p[i - 1].x,
        p[i].y - p[i - 1].y,
        p[i + 1].x - p[i].x,
        p[i + 1].y - p[i].y,
    )
}

/// The cells among `p[1]`, .., `p[n - 1]` at which `p` changes slope, in order.
pub open spec fn turns(p: Seq<V2>, n: int) -> Seq<V2>
    decreases n,
{
    if n <= 1 {
        Seq::empty()
    } else if turns_at(p, n - 1) {
        turns(p, n - 1).push(p[n - 1])
    } else {
        turns(p, n - 1)
    }
}

/// The pivot points of `p`: the cells between its ends at which it changes
/// slope, and then its last cell. A path of fewer than three cells is its own
/// list of pivot points.
pub open spec fn pivot_points(p: Seq<V2>) -> Seq<V2> {
    if p.len() < 3 {
        p
    } else {
        turns(p, p.len() - 1).push(p[p.len() - 1])
    }
}

/// The cell to steer for: the second pivot point, or the target where there
/// is none.
pub open spec fn waypoint(pivots: Seq<V2>, target: V2) -> V2 {
    if pivots.len() > 1 {
        pivots[1]
    } else {
        target
    }
}

/// No more cells turn than lie strictly inside the path.
pub proof fn lemma_turns_len(p: Seq<V2>, n: int)
    ensures
        turns(p, n).len() <= if n <= 1 { 0 } else { n - 1 },
    decreases n,
{
    if n > 1 {
        lemma_turns_len(p, n - 1);
    }
}

/// The pivot points of a path end where the path ends, and are no more than
/// the cells of the path.
pub proof fn lemma_pivots_end(p: Seq<V2>)
    requires
        p.len() > 0,
    ensures
        pivot_points(p).len() > 0,
        pivot_points(p).len() <= p.len(),
        pivot_points(p)[pivot_points(p).len() - 1] == p[p.len() - 1],
{
    lemma_turns_len(p, p.len() - 1);
}

/// The step from one cell to the next: along each axis how far, and
/// whether towards smaller coordinates.
struct Step {
    dx: u128,
    dx_neg: bool,
    dy: u128,
    dy_neg: bool,
}

impl Step {
    /// The signed step along `x`.
    spec fn sdx(&self) -> int {
        if self.dx_neg {
            -(self.dx as int)
        } else {
            self.dx as int
        }
    }

    /// The signed step along `y`.
    spec fn sdy(&self) -> int {
        if self.dy_neg {
            -(self.dy as int)
        } else {
            self.dy as int
        }
    }

    /// The step from `a` to `b`.
    fn between(a: V2, b: V2) -> (s: Step)
        ensures
            s.sdx() == b.x - a.x,
            s.sdy() == b.y - a.y,
            s.dx <= usize::MAX,
            s.dy <= usize::MAX,
            s.dx_neg ==> s.dx > 0,
            s.dy_neg ==> s.dy > 0,
    {
        let (dx, dx_neg) = if b.x >= a.x {
            ((b.x - a.x) as u128, false)
        } else {
            ((a.x - b.x) as u128, true)
        };
        let (dy, dy_neg) = if b.y >= a.y {
            ((b.y - a.y) as u128, false)
        } else {
            ((a.y - b.y) as u128, true)
        };
        Step { dx, dx_neg, dy, dy_neg }
    }

    /// The direction in which the slope of the step runs.
    fn sign(&self) -> (r: i8)
        requires
            self.dx_neg ==> self.dx > 0,
            self.dy_neg ==> self.dy > 0,
        ensures
            r == slope_sign(self.sdx(), self.sdy()),
    {
        if self.dy == 0 {
            0
        } else if (!self.dx_neg && self.dx > 0) == !self.dy_neg {
            1
        } else {
            -1
        }
    }

    /// Whether the two steps have the same slope.
    fn same_slope_as(&self, other: &Step) -> (r: bool)
        requires
            self.dx <= usize::MAX,
            self.dy <= usize::MAX,
            other.dx <= usize::MAX,
            other.dy <= usize::MAX,
            self.dx_neg ==> self.dx > 0,
            self.dy_neg ==> self.dy > 0,
            other.dx_neg ==> other.dx > 0,
            other.dy_neg ==> other.dy > 0,
        ensures
            r == same_slope(self.sdx(), self.sdy(), other.sdx(), other.sdy()),
    {
        if (self.dx == 0 && self.dy == 0) || (other.dx == 0 && other.dy == 0) {
            false
        } else if self.dx == 0 || other.dx == 0 {
            self.dx == 0 && other.dx == 0 && self.dy_neg == other.dy_neg
        } else {
            assert(self.dy * other.dx <= u128::MAX && other.dy * self.dx <= u128::MAX)
                by (nonlinear_arith)
                requires
                    self.dx <= usize::MAX,
                    self.dy <= usize::MAX,
                    other.dx <= usize::MAX,
                    other.dy <= usize::MAX,
                    usize::MAX <= 0xffff_ffff_ffff_ffff,
                    u128::MAX == 0xffff_ffff_ffff_ffff_ffff_ffff_ffff_ffff,
            ;
            self.sign() == other.sign() && self.dy * other.dx == other.dy * self.dx
        }
    }
}

/// Reduces `path` to its pivot points.
pub fn find_pivot_points(path: Vec<V2>) -> (pivots: Vec<V2>)
    ensures
        pivots@ == pivot_points(path@),
{
    if path.len() < 3 {
        return path;
    }
    let mut pivots: Vec<V2> = Vec::new();
    let last = path.len() - 1;
    let mut i: usize = 1;
    while i < last
        invariant
            last == path.len() - 1,
            1 <= i <= last,
            pivots@ == turns(path@, i as int),
        decreases last - i,
    {
        let before = Step::between(path[i - 1], path[i]);
        let after = Step::between(path[i], path[i + 1]);
        if !before.same_slope_as(&after) {
            pivots.push(path[i]);
        }
        i += 1;
    }
    pivots.push(path[last]);
    pivots
}

/// The cell to steer for, given the pivot points of the path to `target`.
pub fn next_waypoint(pivots: &Vec<V2>, target: V2) -> (w: V2)
    ensures
        w == waypoint(pivots@, target),
{
    if pivots.len() > 1 {
        pivots[1]
    } else {
        target
    }
}

} // verus!
