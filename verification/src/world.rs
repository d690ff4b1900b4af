//! The world map: a walkability grid of square tiles centred on the origin of
//! world coordinates, with the `y` axis of the world pointing up and the rows
//! of the grid running down.

use vstd::prelude::*;
use crate::astar::a_star;
use crate::grid::{is_route, Grid, GridView, CELL_MARK, V2};
use crate::pivots::{find_pivot_points, next_waypoint, pivot_points, waypoint};

verus! {

/// A position in world units.
#[derive(Clone, Copy, PartialEq, Eq, Structural, Debug)]
pub struct Pos {
    pub x: i32,
    pub y: i32,
}

/// `v` brought into the range of `i32`.
pub open spec fn clamp_i32(v: int) -> i32 {
    if v < i32::MIN {
        i32::MIN
    } else if v > i32::MAX {
        i32::MAX
    } else {
        v as i32
    }
}

/// The extent of a map in tiles and the edge of a tile in world units.
pub struct Geometry {
    pub tile: nat,
    pub width: nat,
    pub height: nat,
}

impl Geometry {
    /// Half the width of the map in world units.
    pub open spec fn half_width(self) -> int {
        (self.tile * self.width) as int / 2
    }

    /// Half the height of the map in world units.
    pub open spec fn half_height(self) -> int {
        (self.tile * self.height) as int / 2
    }

    /// The cell in which `p` lies. A position left of the map or above it
    /// counts to the first column or row; one right of the map or below it
    /// gets a cell off the grid.
    pub open spec fn cell_of(self, p: Pos) -> V2 {
        let sx = p.x + self.half_width();
        let sy = self.half_height() - p.y;
        V2 {
            x: (if sx < 0 { 0 } else { sx / self.tile as int }) as usize,
            y: (if sy < 0 { 0 } else { sy / self.tile as int }) as usize,
        }
    }

    /// The world position of the corner of the cell `c` that has the least
    /// `x` and the greatest `y`, brought into the range of the coordinates.
    pub open spec fn pos_of(self, c: V2) -> Pos {
        Pos {
            x: clamp_i32(c.x * self.tile - self.half_width()),
            y: clamp_i32(self.half_height() - c.y * self.tile),
        }
    }
}

/// The code which the cell `c` has after the marks of `g` have spread: a
/// marked cell marks the cell before it in its row and the cell above it.
pub open spec fn spread_code(g: GridView, c: V2) -> i32 {
    let right = V2 { x: (c.x + 1) as usize, y: c.y };
    let below = V2 { x: c.x, y: (c.y + 1) as usize };
    if g.code(c) == CELL_MARK || (g.in_bounds(right) && g.code(right) == CELL_MARK) || (
    g.in_bounds(below) && g.code(below) == CELL_MARK) {
        CELL_MARK
    } else {
        g.code(c)
    }
}

/// `out` is `g` after its marks have spread.
pub open spec fn is_spread(g: GridView, out: GridView) -> bool {
    &&& out.wf()
    &&& out.width == g.width
    &&& out.height == g.height
    &&& forall|c: V2| out.in_bounds(c) ==> #[trigger] out.code(c) == spread_code(g, c)
}

/// The copy, now at column `x` of row `y`, has passed the cell `c`.
spec fn passed(c: V2, x: int, y: int) -> bool {
    c.y < y || (c.y == y && c.x < x)
}

/// The code of `c` when the copy stands at column `x` of row `y`: only
/// marks of cells that the copy has passed have spread.
spec fn spread_so_far(g: GridView, c: V2, x: int, y: int) -> i32 {
    let right = V2 { x: (c.x + 1) as usize, y: c.y };
    let below = V2 { x: c.x, y: (c.y + 1) as usize };
    if g.code(c) == CELL_MARK || (g.in_bounds(right) && passed(right, x, y) && g.code(right)
        == CELL_MARK) || (g.in_bounds(below) && passed(below, x, y) && g.code(below) == CELL_MARK) {
        CELL_MARK
    } else {
        g.code(c)
    }
}

/// Copies `map` cell by cell, row after row, and lets every marked cell mark
/// its four neighbours as it is copied. A mark set on a cell that is copied
/// later is overwritten by the copy, so in the end a mark has spread only to
/// the cell before it in its row and to the cell above it. A map without marks
/// comes out as it went in.
pub fn process_map(map: &Grid) -> (out: Grid)
    requires
        map.wf(),
    ensures
        out.wf(),
        is_spread(map@, out@),
        (forall|c: V2| map@.in_bounds(c) ==> map@.code(c) != CELL_MARK) ==> forall|c: V2|
            out@.in_bounds(c) ==> out@.code(c) == map@.code(c),
{
    proof {
        map.lemma_wf();
    }
    let width = map.width();
    let height = map.height();
    let mut out = Grid::new(width, height).unwrap();
    let mut y: usize = 0;
    while y < height
        invariant
            map.wf(),
            out.wf(),
            width == map@.width,
            height == map@.height,
            out@.width == width,
            out@.height == height,
            y <= height,
            forall|c: V2|
                out@.in_bounds(c) && passed(c, 0, y as int) ==> #[trigger] out@.code(c)
                    == spread_so_far(map@, c, 0, y as int),
        decreases height - y,
    {
        let mut x: usize = 0;
        while x < width
            invariant
                map.wf(),
                out.wf(),
                width == map@.width,
                height == map@.height,
                out@.width == width,
                out@.height == height,
                y < height,
                x <= width,
                forall|c: V2|
                    out@.in_bounds(c) && passed(c, x as int, y as int) ==> #[trigger] out@.code(c)
                        == spread_so_far(map@, c, x as int, y as int),
            decreases width - x,
        {
            let here = V2 { x, y };
            let code = map.get(here).unwrap();
            out.set(here, code);
            if code == CELL_MARK {
                if y > 0 {
                    out.set(V2 { x, y: y - 1 }, CELL_MARK);
                }
                if y < height - 1 {
                    out.set(V2 { x, y: y + 1 }, CELL_MARK);
                }
                if x > 0 {
                    out.set(V2 { x: x - 1, y }, CELL_MARK);
                }
                if x < width - 1 {
                    out.set(V2 { x: x + 1, y }, CELL_MARK);
                }
            }
            x += 1;
        }
        y += 1;
    }
    proof {
        out.lemma_wf();
    }
    out
}

/// A walkability grid with the size of its tiles.
pub struct WorldMap {
    tile_size: usize,
    grid: Grid,
}

impl WorldMap {
    /// The tiles have an edge, and the map measured in world units fits the
    /// range of the coordinates.
    pub closed spec fn wf(&self) -> bool {
        &&& self.grid.wf()
        &&& 0 < self.tile_size <= i32::MAX
        &&& self.tile_size * self.grid@.width <= i32::MAX
        &&& self.tile_size * self.grid@.height <= i32::MAX
    }

    /// The walkability grid.
    pub closed spec fn cells(&self) -> GridView {
        self.grid@
    }

    /// The extent of the map and the size of its tiles.
    pub closed spec fn geometry(&self) -> Geometry {
        Geometry {
            tile: self.tile_size as nat,
            width: self.grid@.width,
            height: self.grid@.height,
        }
    }

    /// What `wf` says of the geometry.
    pub proof fn lemma_wf(&self)
        requires
            self.wf(),
        ensures
            self.cells().wf(),
            0 < self.geometry().tile <= i32::MAX,
            self.geometry().width == self.cells().width,
            self.geometry().height == self.cells().height,
            self.geometry().tile * self.geometry().width <= i32::MAX,
            self.geometry().tile * self.geometry().height <= i32::MAX,
    {
        self.grid.lemma_wf();
    }

    /// The map over `grid` with tiles of edge `tile_size`, or nothing where
    /// the tiles have no edge or the map is too large for the coordinates.
    pub fn new(grid: Grid, tile_size: usize) -> (r: Option<WorldMap>)
        requires
            grid.wf(),
        ensures
            r is Some <==> 0 < tile_size <= i32::MAX && tile_size * grid@.width <= i32::MAX
                && tile_size * grid@.height <= i32::MAX,
            r matches Some(m) ==> m.wf() && m.cells() == grid@ && m.geometry() == (Geometry {
                tile: tile_size as nat,
                width: grid@.width,
                height: grid@.height,
            }),
    {
        let limit: usize = 0x7fff_ffff;
        if tile_size == 0 || tile_size > limit {
            return None;
        }
        match tile_size.checked_mul(grid.width()) {
            None => {
                return None;
            },
            Some(w) => {
                if w > limit {
                    return None;
                }
            },
        }
        match tile_size.checked_mul(grid.height()) {
            None => {
                return None;
            },
            Some(h) => {
                if h > limit {
                    return None;
                }
            },
        }
        Some(WorldMap { tile_size, grid })
    }

    /// The walkability grid.
    pub fn grid(&self) -> (g: &Grid)
        ensures
            g@ == self.cells(),
            self.wf() ==> g.wf(),
    {
        &self.grid
    }

    /// The edge of a tile in world units.
    pub fn tile_size(&self) -> (t: usize)
        ensures
            t == self.geometry().tile,
    {
        self.tile_size
    }
}

/// The cell of `map` in which the world position `vec` lies.
pub fn convert_vec(map: &WorldMap, vec: Pos) -> (cell: V2)
    requires
        map.wf(),
    ensures
        cell == map.geometry().cell_of(vec),
{
    let tile: u64 = map.tile_size as u64;
    let half_w: i64 = (map.tile_size * map.grid.width() / 2) as i64;
    let half_h: i64 = (map.tile_size * map.grid.height() / 2) as i64;
    let sx: i64 = vec.x as i64 + half_w;
    let sy: i64 = half_h - vec.y as i64;
    let col: usize = if sx < 0 {
        0
    } else {
        (sx as u64 / tile) as usize
    };
    let row: usize = if sy < 0 {
        0
    } else {
        (sy as u64 / tile) as usize
    };
    V2 { x: col, y: row }
}

/// The world position of the cell `v2` of `map`.
pub fn convert_back(map: &WorldMap, v2: V2) -> (pos: Pos)
    requires
        map.wf(),
    ensures
        pos == map.geometry().pos_of(v2),
{
    let tile: i128 = map.tile_size as i128;
    let half_w: i128 = (map.tile_size * map.grid.width() / 2) as i128;
    let half_h: i128 = (map.tile_size * map.grid.height() / 2) as i128;
    assert(v2.x * map.tile_size <= 0x7fff_ffff * 0xffff_ffff_ffff_ffff && v2.y * map.tile_size
        <= 0x7fff_ffff * 0xffff_ffff_ffff_ffff) by (nonlinear_arith)
        requires
            0 <= v2.x <= 0xffff_ffff_ffff_ffff,
            0 <= v2.y <= 0xffff_ffff_ffff_ffff,
            0 < map.tile_size <= 0x7fff_ffff,
    ;
    let x: i128 = (v2.x as i128) * tile - half_w;
    let y: i128 = half_h - (v2.y as i128) * tile;
    Pos { x: clamp_to_i32(x), y: clamp_to_i32(y) }
}

/// `v` brought into the range of `i32`.
pub fn clamp_to_i32(v: i128) -> (r: i32)
    ensures
        r == clamp_i32(v as int),
{
    if v < -0x8000_0000 {
        -0x8000_0000
    } else if v > 0x7fff_ffff {
        0x7fff_ffff
    } else {
        v as i32
    }
}

/// What a search from the cell of `s` to the cell of `t` may give as the next
/// point to steer for: the map is processed, `path` is a route between the two
/// cells, and `next` is the position of the waypoint of its pivot points.
pub open spec fn steers_by(map: &WorldMap, s: Pos, t: Pos, path: Seq<V2>, next: Pos) -> bool {
    let start = map.geometry().cell_of(s);
    let target = map.geometry().cell_of(t);
    exists|g: GridView|
        {
            &&& #[trigger] is_spread(map.cells(), g)
            &&& is_route(g, path, start, target)
            &&& next == map.geometry().pos_of(waypoint(pivot_points(path), target))
        }
}

/// The world position for which an entity at `s` steers on its way to `t`:
/// the second pivot point of a route between their cells, or the cell of `t`
/// itself where the route has fewer pivot points or is empty.
pub fn find_next(map: &WorldMap, s: Pos, t: Pos) -> (next: Pos)
    requires
        map.wf(),
    ensures
        exists|path: Seq<V2>| steers_by(map, s, t, path, next),
{
    let start = convert_vec(map, s);
    let target = convert_vec(map, t);
    let u_map = process_map(&map.grid);
    let path = a_star(&u_map, start, target);
    let ghost walked = path@;
    let pivots = find_pivot_points(path);
    let go_to = next_waypoint(&pivots, target);
    let next = convert_back(map, go_to);
    proof {
        assert(is_spread(map.cells(), u_map@));
        assert(steers_by(map, s, t, walked, next));
    }
    next
}

} // verus!
