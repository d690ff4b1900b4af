//! The walkability grid and the vocabulary of paths over it.

use vstd::prelude::*;

verus! {

/// Code of a cell that can be walked on.
pub const CELL_OPEN: i32 = 0;

/// Code of a wall.
pub const CELL_WALL: i32 = 1;

/// Code of a marked cell, which spreads its mark when a map is processed.
pub const CELL_MARK: i32 = 2;

/// A grid cell: column `x`, row `y`.
#[derive(Clone, Copy, PartialEq, Eq, Structural, Debug, Hash)]
pub struct V2 {
    pub x: usize,
    pub y: usize,
}

/// An entry of the search frontier: a cell and the priority it was queued with.
#[derive(Clone, Copy, PartialEq, Eq, Structural, Debug, Hash)]
pub struct Node {
    pub position: V2,
    pub cost: usize,
}

/// The mathematical content of a grid: its extent and the codes of its cells,
/// row after row.
pub struct GridView {
    pub width: nat,
    pub height: nat,
    pub cells: Seq<i32>,
}

impl GridView {
    /// There is one code for each cell.
    pub open spec fn wf(self) -> bool {
        self.cells.len() == self.width * self.height
    }

    /// Whether `c` lies on the grid.
    pub open spec fn in_bounds(self, c: V2) -> bool {
        c.x < self.width && c.y < self.height
    }

    /// Where the code of `c` stands in `cells`.
    pub open spec fn index_of(self, c: V2) -> int {
        c.y * self.width + c.x
    }

    /// The code of `c`.
    pub open spec fn code(self, c: V2) -> i32 {
        self.cells[self.index_of(c)]
    }

    /// A cell can be entered when it lies on the grid and is no wall.
    pub open spec fn valid(self, c: V2) -> bool {
        self.in_bounds(c) && self.code(c) != CELL_WALL
    }

    /// Whether `c` is a wall of the grid.
    pub open spec fn is_wall(self, c: V2) -> bool {
        self.in_bounds(c) && self.code(c) == CELL_WALL
    }
}

/// Two cells are adjacent when they differ by one step along one axis.
pub open spec fn adjacent(a: V2, b: V2) -> bool {
    ||| a.y == b.y && (a.x + 1 == b.x || b.x + 1 == a.x)
    ||| a.x == b.x && (a.y + 1 == b.y || b.y + 1 == a.y)
}

/// The number of axis steps between two cells.
pub open spec fn manhattan(a: V2, b: V2) -> nat {
    let dx: int = if a.x >= b.x { a.x - b.x } else { b.x - a.x };
    let dy: int = if a.y >= b.y { a.y - b.y } else { b.y - a.y };
    (dx + dy) as nat
}

/// A walk is a non-empty sequence of cells in which every cell after the
/// first can be entered and is adjacent to the one before it. Nothing is
/// asked of the first cell.
pub open spec fn is_walk(g: GridView, p: Seq<V2>) -> bool {
    &&& p.len() > 0
    &&& forall|i: int| 0 < i < p.len() ==> g.valid(#[trigger] p[i]) && adjacent(p[i - 1], p[i])
}

/// `p` is a walk from `s` to `t`.
pub open spec fn connects(g: GridView, p: Seq<V2>, s: V2, t: V2) -> bool {
    is_walk(g, p) && p[0] == s && p[p.len() - 1] == t
}

/// Some walk leads from `s` to `t`.
pub open spec fn reachable(g: GridView, s: V2, t: V2) -> bool {
    exists|p: Seq<V2>| connects(g, p, s, t)
}

/// `p` is a walk from `s` to `t`, and no walk from `s` to `t` is shorter.
pub open spec fn shortest(g: GridView, p: Seq<V2>, s: V2, t: V2) -> bool {
    &&& connects(g, p, s, t)
    &&& forall|q: Seq<V2>| connects(g, q, s, t) ==> p.len() <= q.len()
}

/// `p` is a route from `s` to `t`: a shortest walk, or the empty path where
/// no walk leads from `s` to `t` or where `t` is a wall. A wall is no target,
/// not even for one who stands on it.
pub open spec fn is_route(g: GridView, p: Seq<V2>, s: V2, t: V2) -> bool {
    &&& p.len() == 0 <==> g.is_wall(t) || !reachable(g, s, t)
    &&& p.len() > 0 ==> shortest(g, p, s, t)
}

/// The code of a cell is found below the end of `cells`.
pub proof fn lemma_index_in_range(g: GridView, c: V2)
    requires
        g.wf(),
        g.in_bounds(c),
    ensures
        0 <= g.index_of(c) < g.cells.len(),
        c.y * g.width <= g.index_of(c),
{
    let w = g.width as int;
    let h = g.height as int;
    let x = c.x as int;
    let y = c.y as int;
    assert(0 <= y * w + x < w * h) by (nonlinear_arith)
        requires
            0 <= x < w,
            0 <= y < h,
    ;
    assert(0 <= y * w) by (nonlinear_arith)
        requires
            0 <= y,
            0 <= w,
    ;
}

/// Different cells of the grid have their codes in different places.
pub proof fn lemma_index_injective(g: GridView, a: V2, b: V2)
    requires
        g.in_bounds(a),
        g.in_bounds(b),
        g.index_of(a) == g.index_of(b),
    ensures
        a == b,
{
    let w = g.width as int;
    let ax = a.x as int;
    let ay = a.y as int;
    let bx = b.x as int;
    let by = b.y as int;
    assert(ay == by) by (nonlinear_arith)
        requires
            0 <= ax < w,
            0 <= bx < w,
            0 <= ay,
            0 <= by,
            ay * w + ax == by * w + bx,
    ;
    assert(ay * w == by * w);
}

/// One step changes the distance to any cell by at most one.
pub proof fn lemma_manhattan_step(a: V2, b: V2, t: V2)
    requires
        adjacent(a, b),
    ensures
        manhattan(a, t) <= manhattan(b, t) + 1,
{
}

/// A walk is at least as long as the distance between its ends: the
/// heuristic never overestimates.
pub proof fn lemma_manhattan_admissible(g: GridView, p: Seq<V2>, i: int)
    requires
        is_walk(g, p),
        0 <= i < p.len(),
    ensures
        manhattan(p[i], p[p.len() - 1]) <= p.len() - 1 - i,
    decreases p.len() - i,
{
    if i < p.len() - 1 {
        lemma_manhattan_admissible(g, p, i + 1);
        assert(g.valid(p[i + 1]) && adjacent(p[i], p[i + 1]));
        lemma_manhattan_step(p[i], p[i + 1], p[p.len() - 1]);
    }
}

/// No walk leads to a cell that cannot be entered, but the walk that starts
/// there and stays.
pub proof fn lemma_blocked_target(g: GridView, s: V2, t: V2)
    requires
        !g.valid(t),
        s != t,
    ensures
        !reachable(g, s, t),
{
    assert forall|p: Seq<V2>| !connects(g, p, s, t) by {
        if connects(g, p, s, t) {
            assert(g.valid(p[p.len() - 1]));
        }
    }
}

/// On a grid without walls, a walk with as many steps as the Manhattan
/// distance leads from any cell of the grid to any other.
pub proof fn lemma_open_grid_walk(g: GridView, s: V2, t: V2) -> (p: Seq<V2>)
    requires
        g.in_bounds(s),
        g.in_bounds(t),
        forall|c: V2| g.in_bounds(c) ==> #[trigger] g.valid(c),
    ensures
        connects(g, p, s, t),
        p.len() == manhattan(s, t) + 1,
    decreases manhattan(s, t),
{
    if s == t {
        seq![s]
    } else {
        let before = if t.x > s.x {
            V2 { x: (t.x - 1) as usize, y: t.y }
        } else if t.x < s.x {
            V2 { x: (t.x + 1) as usize, y: t.y }
        } else if t.y > s.y {
            V2 { x: t.x, y: (t.y - 1) as usize }
        } else {
            V2 { x: t.x, y: (t.y + 1) as usize }
        };
        let q = lemma_open_grid_walk(g, s, before);
        let p = q.push(t);
        assert(g.valid(t));
        assert(adjacent(before, t));
        assert forall|i: int| 0 < i < p.len() implies g.valid(#[trigger] p[i]) && adjacent(
            p[i - 1],
            p[i],
        ) by {
            if i < q.len() {
                assert(p[i] == q[i]);
                assert(p[i - 1] == q[i - 1]);
            }
        }
        p
    }
}

/// The route to a cell that cannot be entered is empty, unless the cell lies
/// off the grid and is the start itself.
pub proof fn lemma_no_route_to_blocked_target(g: GridView, p: Seq<V2>, s: V2, t: V2)
    requires
        is_route(g, p, s, t),
        !g.valid(t),
        g.in_bounds(t) || s != t,
    ensures
        p.len() == 0,
{
    if s != t {
        lemma_blocked_target(g, s, t);
    }
}

/// On a grid without walls, a shortest walk between two cells of the grid has
/// as many steps as their Manhattan distance.
pub proof fn lemma_open_grid_shortest(g: GridView, p: Seq<V2>, s: V2, t: V2)
    requires
        g.in_bounds(s),
        g.in_bounds(t),
        forall|c: V2| g.in_bounds(c) ==> #[trigger] g.valid(c),
        shortest(g, p, s, t),
    ensures
        p.len() == manhattan(s, t) + 1,
{
    let q = lemma_open_grid_walk(g, s, t);
    lemma_manhattan_admissible(g, p, 0);
}

/// A rectangular grid of cell codes.
pub struct Grid {
    width: usize,
    height: usize,
    cells: Vec<i32>,
}

impl View for Grid {
    type V = GridView;

    closed spec fn view(&self) -> GridView {
        GridView { width: self.width as nat, height: self.height as nat, cells: self.cells@ }
    }
}

impl Grid {
    /// The cells fill the extent, and the extent leaves room for the
    /// priorities of a search.
    pub closed spec fn wf(&self) -> bool {
        &&& self@.wf()
        &&& self.width * self.height + self.width + self.height <= usize::MAX
    }

    /// What `wf` says of the view.
    pub proof fn lemma_wf(&self)
        requires
            self.wf(),
        ensures
            self@.wf(),
            self@.width * self@.height + self@.width + self@.height <= usize::MAX,
    {
    }

    /// The number of cells of a `width` by `height` grid, or nothing where a
    /// grid of that extent cannot be held.
    pub fn cell_count(width: usize, height: usize) -> (n: Option<usize>)
        ensures
            n is Some <==> width * height + width + height <= usize::MAX,
            n is Some ==> n->0 == width * height,
    {
        match width.checked_mul(height) {
            None => {
                assert(width * height + width + height > usize::MAX) by (nonlinear_arith)
                    requires
                        width * height > usize::MAX,
                        width >= 0,
                        height >= 0,
                ;
                None
            },
            Some(n) => match n.checked_add(width) {
                None => None,
                Some(m) => match m.checked_add(height) {
                    None => None,
                    Some(_) => Some(n),
                },
            },
        }
    }

    /// A grid of open cells, or nothing where the extent is too large.
    pub fn new(width: usize, height: usize) -> (r: Option<Grid>)
        ensures
            r is Some <==> width * height + width + height <= usize::MAX,
            r matches Some(g) ==> {
                &&& g.wf()
                &&& g@.width == width
                &&& g@.height == height
                &&& forall|c: V2| g@.in_bounds(c) ==> g@.code(c) == CELL_OPEN
            },
    {
        let n = match Self::cell_count(width, height) {
            Some(n) => n,
            None => {
                return None;
            },
        };
        let mut cells: Vec<i32> = Vec::new();
        let mut i: usize = 0;
        while i < n
            invariant
                i <= n,
                cells.len() == i,
                forall|j: int| 0 <= j < i ==> cells[j] == CELL_OPEN,
            decreases n - i,
        {
            cells.push(CELL_OPEN);
            i += 1;
        }
        let g = Grid { width, height, cells };
        assert forall|c: V2| g@.in_bounds(c) implies g@.code(c) == CELL_OPEN by {
            lemma_index_in_range(g@, c);
        }
        Some(g)
    }

    /// The grid whose rows are `rows`, or nothing where the rows differ in
    /// length or the extent is too large. The width of a grid without rows
    /// is zero.
    pub fn from_rows(rows: &Vec<Vec<i32>>) -> (r: Option<Grid>)
        ensures
            r is Some <==> {
                &&& forall|j: int| 0 <= j < rows.len() ==> (#[trigger] rows[j]).len() == rows[0].len()
                &&& rows.len() > 0 ==> rows[0].len() * rows.len() + rows[0].len() + rows.len()
                    <= usize::MAX
            },
            r matches Some(g) ==> {
                &&& g.wf()
                &&& g@.height == rows.len()
                &&& g@.width == if rows.len() > 0 { rows[0].len() } else { 0 }
                &&& forall|c: V2| g@.in_bounds(c) ==> g@.code(c) == rows[c.y as int][c.x as int]
            },
    {
        let height = rows.len();
        if height == 0 {
            let g = Grid { width: 0, height: 0, cells: Vec::new() };
            assert(g@.wf()) by (nonlinear_arith)
                requires
                    g@.width == 0,
                    g@.height == 0,
                    g@.cells.len() == 0,
            ;
            return Some(g);
        }
        let width = rows[0].len();
        if Self::cell_count(width, height).is_none() {
            return None;
        }
        let mut cells: Vec<i32> = Vec::new();
        let mut y: usize = 0;
        while y < height
            invariant
                y <= height,
                height == rows.len(),
                width == rows[0].len(),
                width * height <= usize::MAX,
                cells.len() == y * width,
                forall|j: int| 0 <= j < y ==> (#[trigger] rows[j]).len() == width,
                forall|r: int, k: int|
                    0 <= r < y && 0 <= k < width ==> cells[r * width + k] == #[trigger] rows[r][k],
            decreases height - y,
        {
            if rows[y].len() != width {
                return None;
            }
            let row = &rows[y];
            let mut x: usize = 0;
            let ghost before = cells@;
            assert(y * width + width <= width * height) by (nonlinear_arith)
                requires
                    y < height,
                    0 <= width,
            ;
            while x < width
                invariant
                    x <= width,
                    row.len() == width,
                    *row == rows[y as int],
                    y < height,
                    y * width + width <= usize::MAX,
                    cells.len() == y * width + x,
                    before.len() == y * width,
                    forall|j: int| 0 <= j < before.len() ==> cells[j] == before[j],
                    forall|k: int| 0 <= k < x ==> cells[y * width + k] == row[k],
                decreases width - x,
            {
                cells.push(row[x]);
                x += 1;
            }
            assert((y + 1) * width == y * width + width) by (nonlinear_arith);
            assert forall|r: int, k: int| 0 <= r < y + 1 && 0 <= k < width implies cells[r * width
                + k] == #[trigger] rows[r][k] by {
                if r < y {
                    assert(r * width + k < y * width) by (nonlinear_arith)
                        requires
                            0 <= r < y,
                            0 <= k < width,
                    ;
                    assert(before[r * width + k] == rows[r][k]);
                }
            }
            y += 1;
        }
        assert(height * width == width * height) by (nonlinear_arith);
        let g = Grid { width, height, cells };
        assert forall|c: V2| g@.in_bounds(c) implies g@.code(c) == rows[c.y as int][c.x as int] by {
            lemma_index_in_range(g@, c);
        }
        Some(g)
    }

    /// Number of columns.
    pub fn width(&self) -> (w: usize)
        ensures
            w == self@.width,
    {
        self.width
    }

    /// Number of rows.
    pub fn height(&self) -> (h: usize)
        ensures
            h == self@.height,
    {
        self.height
    }

    /// The code of the cell `c`, or nothing where `c` lies off the grid.
    pub fn get(&self, c: V2) -> (r: Option<i32>)
        requires
            self.wf(),
        ensures
            r == if self@.in_bounds(c) { Some(self@.code(c)) } else { None },
    {
        if c.x < self.width && c.y < self.height {
            proof {
                lemma_index_in_range(self@, c);
            }
            Some(self.cells[c.y * self.width + c.x])
        } else {
            None
        }
    }

    /// Gives the cell `c` the code `code`. A cell off the grid is left alone,
    /// and the answer is then `false`.
    pub fn set(&mut self, c: V2, code: i32) -> (done: bool)
        requires
            old(self).wf(),
        ensures
            final(self).wf(),
            final(self)@.width == old(self)@.width,
            final(self)@.height == old(self)@.height,
            done == old(self)@.in_bounds(c),
            done ==> final(self)@.cells == old(self)@.cells.update(old(self)@.index_of(c), code),
            !done ==> final(self)@ == old(self)@,
            forall|d: V2|
                final(self)@.in_bounds(d) ==> final(self)@.code(d) == if d == c {
                    code
                } else {
                    old(self)@.code(d)
                },
    {
        if c.x < self.width && c.y < self.height {
            proof {
                lemma_index_in_range(self@, c);
            }
            let i = c.y * self.width + c.x;
            self.cells[i] = code;
            assert forall|d: V2| final(self)@.in_bounds(d) implies final(self)@.code(d) == if d
                == c {
                code
            } else {
                old(self)@.code(d)
            } by {
                lemma_index_in_range(old(self)@, d);
                if d != c {
                    if old(self)@.index_of(d) == old(self)@.index_of(c) {
                        lemma_index_injective(old(self)@, d, c);
                    }
                }
            }
            true
        } else {
            false
        }
    }
}

/// Whether `pos` can be entered on `map`: it lies on the grid and is no wall.
pub fn is_valid_position(map: &Grid, pos: V2) -> (r: bool)
    requires
        map.wf(),
    ensures
        r == map@.valid(pos),
{
    match map.get(pos) {
        Some(code) => code != CELL_WALL,
        None => false,
    }
}

/// The Manhattan distance between two cells of a grid. It is the estimate of
/// the remaining cost which the search adds to the cost so far.
pub fn heuristic(a: V2, b: V2) -> (h: usize)
    requires
        manhattan(a, b) <= usize::MAX,
    ensures
        h == manhattan(a, b),
{
    let dx = if a.x >= b.x { a.x - b.x } else { b.x - a.x };
    let dy = if a.y >= b.y { a.y - b.y } else { b.y - a.y };
    dx + dy
}

} // verus!
