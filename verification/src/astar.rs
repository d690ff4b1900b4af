//! Shortest paths over the grid by best-first search.
//!
//! The search takes steps along the two axes only, each of cost one, and
//! orders its frontier by the cost so far plus the Manhattan distance to the
//! target.

use vstd::prelude::*;
use crate::cellmap::CellMap;
use crate::frontier::Frontier;
use crate::grid::{
    adjacent, connects, heuristic, is_route, is_valid_position, lemma_manhattan_admissible,
    manhattan, Grid, GridView, Node, CELL_WALL, V2,
};

verus! {

/// The cell reached from `c` after `n` steps along the predecessor links,
/// stopping early at a cell without a link.
pub open spec fn ancestor(from: Map<V2, V2>, c: V2, n: nat) -> V2
    decreases n,
{
    if n == 0 || !from.contains_key(c) {
        c
    } else {
        ancestor(from, from[c], (n - 1) as nat)
    }
}

/// Following the links from `c` ends within `n` steps at a cell without a link.
pub open spec fn chain_ends(from: Map<V2, V2>, c: V2, n: nat) -> bool {
    !from.contains_key(ancestor(from, c, n))
}

/// `path` is the line of predecessors of `current`, oldest first: it ends in
/// `current`, each cell after the first has the cell before it as its
/// predecessor, and the first cell has none.
pub open spec fn is_lineage(from: Map<V2, V2>, path: Seq<V2>, current: V2) -> bool {
    &&& path.len() > 0
    &&& path[path.len() - 1] == current
    &&& !from.contains_key(path[0])
    &&& forall|j: int|
        0 < j < path.len() ==> from.contains_key(#[trigger] path[j]) && from[path[j]] == path[j
            - 1]
}

/// One step further along the links is the predecessor of where the
/// steps so far have led.
proof fn lemma_ancestor_step(from: Map<V2, V2>, c: V2, n: nat)
    requires
        from.contains_key(ancestor(from, c, n)),
    ensures
        ancestor(from, c, n + 1) == from[ancestor(from, c, n)],
    decreases n,
{
    reveal_with_fuel(ancestor, 2);
    if n > 0 {
        assert(from.contains_key(c));
        lemma_ancestor_step(from, from[c], (n - 1) as nat);
    }
}

/// Once the links have ended, more steps lead no further.
proof fn lemma_ancestor_rests(from: Map<V2, V2>, c: V2, n: nat, m: nat)
    requires
        chain_ends(from, c, n),
        n <= m,
    ensures
        ancestor(from, c, m) == ancestor(from, c, n),
    decreases n,
{
    if n > 0 && from.contains_key(c) {
        lemma_ancestor_rests(from, from[c], (n - 1) as nat, (m - 1) as nat);
    }
}

/// Follows the predecessor links from `current` back to a cell without one
/// and returns the cells passed, oldest first.
pub fn reconstruct_path(from: CellMap<V2>, current: V2) -> (path: Vec<V2>)
    requires
        from.wf(),
        exists|n: nat| chain_ends(from@, current, n),
    ensures
        is_lineage(from@, path@, current),
{
    let ghost bound: nat = choose|n: nat| chain_ends(from@, current, n);
    let mut back: Vec<V2> = Vec::new();
    back.push(current);
    let mut cur = current;
    loop
        invariant
            from.wf(),
            chain_ends(from@, current, bound),
            1 <= back.len() <= bound + 1,
            cur == back[back.len() - 1],
            forall|j: int| 0 <= j < back.len() ==> back[j] == ancestor(from@, current, j as nat),
            forall|j: int|
                0 <= j < back.len() - 1 ==> from@.contains_key(#[trigger] back[j]) && from@[back[j]]
                    == back[j + 1],
        ensures
            !from@.contains_key(back[back.len() - 1]),
        decreases bound + 1 - back.len(),
    {
        match from.get(cur) {
            None => {
                break ;
            },
            Some(prev) => {
                proof {
                    let steps = (back.len() - 1) as nat;
                    if steps >= bound {
                        assert(false);
                    }
                    lemma_ancestor_step(from@, current, steps);
                }
                back.push(prev);
                cur = prev;
            },
        }
    }
    let n = back.len();
    let mut path: Vec<V2> = Vec::new();
    let mut i: usize = n;
    while i > 0
        invariant
            n == back.len(),
            i <= n,
            path.len() == n - i,
            forall|k: int| 0 <= k < path.len() ==> path[k] == back[n - 1 - k],
        decreases i,
    {
        i -= 1;
        path.push(back[i]);
    }
    assert forall|j: int| 0 < j < path.len() implies from@.contains_key(#[trigger] path@[j])
        && from@[path@[j]] == path@[j - 1] by {
        assert(path[j] == back[n - 1 - j]);
        assert(from@.contains_key(back[n - 1 - j]));
    }
    path
}

/// The cost recorded for `c`. A cell without a record counts as free of
/// cost: this is the start where it lies off the grid.
spec fn cost_of(g: Map<V2, usize>, c: V2) -> nat {
    if g.contains_key(c) {
        g[c] as nat
    } else {
        0
    }
}

/// The search has found a way from the start `s` to `c`.
spec fn known(g: Map<V2, usize>, s: V2, c: V2) -> bool {
    c == s || g.contains_key(c)
}

/// What the search holds between two steps. Beside the three tables of the
/// algorithm it remembers, for the proof alone, the cost at which each cell
/// was last expanded and a queued node for each cell that awaits expansion.
struct SearchState {
    g_score: CellMap<usize>,
    from: CellMap<V2>,
    open: Frontier,
    done: Ghost<Map<V2, nat>>,
    wit: Ghost<Map<V2, Node>>,
}

impl SearchState {
    /// `c` has been expanded, and its cost has not fallen since.
    spec fn settled(&self, c: V2) -> bool {
        self.done@.contains_key(c) && self.done@[c] == cost_of(self.g_score@, c)
    }

    /// The tables fit the grid. Only the start and cells that can be entered
    /// have a cost, no cost is larger than the number of cells that have
    /// one, and the start, where it lies on the grid, has cost zero.
    spec fn tables_ok(&self, gv: GridView, s: V2) -> bool {
        &&& self.g_score.wf()
        &&& self.from.wf()
        &&& self.open.wf()
        &&& self.g_score.extent().width == gv.width
        &&& self.g_score.extent().height == gv.height
        &&& self.from.extent().width == gv.width
        &&& self.from.extent().height == gv.height
        &&& self.g_score.room() == gv.width * gv.height
        &&& forall|c: V2| #[trigger]
            self.g_score@.contains_key(c) ==> gv.in_bounds(c) && (c == s || gv.valid(c))
                && self.g_score@[c] <= self.g_score.count()
        &&& gv.in_bounds(s) ==> self.g_score@.contains_key(s) && self.g_score@[s] == 0
    }

    /// Every cell with a cost but the start has a predecessor, which is
    /// known, adjacent to it, and cheaper by one at least.
    spec fn links_ok(&self, gv: GridView, s: V2) -> bool {
        &&& forall|c: V2| #[trigger]
            self.from@.contains_key(c) ==> {
                &&& c != s
                &&& self.g_score@.contains_key(c)
                &&& gv.valid(c)
                &&& known(self.g_score@, s, self.from@[c])
                &&& adjacent(self.from@[c], c)
                &&& cost_of(self.g_score@, self.from@[c]) + 1 <= self.g_score@[c]
            }
        &&& forall|c: V2| #[trigger]
            self.g_score@.contains_key(c) && c != s ==> self.from@.contains_key(c)
    }

    /// Every queued node stands for a known cell, and its priority is no
    /// smaller than the cost of the cell plus its distance to the target.
    spec fn queue_ok(&self, s: V2, t: V2) -> bool {
        forall|n: Node| #[trigger]
            self.open@.count(n) > 0 ==> {
                &&& known(self.g_score@, s, n.position)
                &&& n.position != s ==> n.cost >= cost_of(self.g_score@, n.position) + manhattan(
                    n.position,
                    t,
                )
            }
    }

    /// Every known cell that is not settled, but for the one being expanded,
    /// has a node in the queue whose priority is no larger than the cost of
    /// the cell plus its distance to the target.
    spec fn waiting_ok(&self, s: V2, t: V2, busy: Option<V2>) -> bool {
        forall|c: V2| #[trigger]
            known(self.g_score@, s, c) && !self.settled(c) && busy != Some(c) ==> {
                &&& self.wit@.contains_key(c)
                &&& self.open@.count(self.wit@[c]) > 0
                &&& self.wit@[c].position == c
                &&& self.wit@[c].cost <= cost_of(self.g_score@, c) + manhattan(c, t)
            }
    }

    /// The target has not been expanded. Costs only fall after an expansion,
    /// and every neighbour of a settled cell is known at a cost of at most
    /// one more.
    spec fn done_ok(&self, gv: GridView, s: V2, t: V2) -> bool {
        &&& !self.done@.contains_key(t)
        &&& forall|c: V2| #[trigger]
            self.done@.contains_key(c) ==> known(self.g_score@, s, c) && self.done@[c] >= cost_of(
                self.g_score@,
                c,
            )
        &&& forall|c: V2, n: V2|
            self.settled(c) && gv.valid(n) && #[trigger] adjacent(c, n) ==> known(
                self.g_score@,
                s,
                n,
            ) && cost_of(self.g_score@, n) <= cost_of(self.g_score@, c) + 1
    }

    /// What holds of the search between two steps, and, with `busy` set,
    /// while that cell is being expanded.
    #[verifier::opaque]
    spec fn inv(&self, gv: GridView, s: V2, t: V2, busy: Option<V2>) -> bool {
        &&& self.tables_ok(gv, s)
        &&& self.links_ok(gv, s)
        &&& self.queue_ok(s, t)
        &&& self.waiting_ok(s, t, busy)
        &&& self.done_ok(gv, s, t)
    }

    /// The state in which only the start is known and queued.
    fn begin(map: &Grid, start: V2, target: V2) -> (st: SearchState)
        requires
            map.wf(),
        ensures
            st.inv(map@, start, target, None),
    {
        proof {
            map.lemma_wf();
        }
        let mut g_score = CellMap::new_costs(map.width(), map.height());
        let from: CellMap<V2> = CellMap::new(map.width(), map.height());
        let mut open = Frontier::new();
        if start.x < map.width() && start.y < map.height() {
            g_score.record(start, 0);
        }
        let node = Node { position: start, cost: 0 };
        open.push(node);
        let st = SearchState {
            g_score,
            from,
            open,
            done: Ghost(Map::empty()),
            wit: Ghost(Map::empty().insert(start, node)),
        };
        proof {
            reveal(SearchState::inv);
            st.g_score.lemma_keys();
        }
        st
    }

    /// Offers `neighbor` the way through `position`, which costs one more
    /// than the way to `position`, and takes it where it is the first or a
    /// cheaper one.
    fn relax(
        &mut self,
        map: &Grid,
        Ghost(start): Ghost<V2>,
        target: V2,
        position: V2,
        cost: usize,
        neighbor: V2,
    )
        requires
            map.wf(),
            map@.valid(target),
            old(self).inv(map@, start, target, Some(position)),
            known(old(self).g_score@, start, position),
            position == start || map@.valid(position),
            cost == cost_of(old(self).g_score@, position),
            adjacent(position, neighbor),
        ensures
            final(self).inv(map@, start, target, Some(position)),
            final(self).g_score.wf(),
            final(self).done@ == old(self).done@,
            cost_of(final(self).g_score@, position) == cost,
            forall|m: V2| #[trigger]
                known(old(self).g_score@, start, m) ==> known(final(self).g_score@, start, m)
                    && cost_of(final(self).g_score@, m) <= cost_of(old(self).g_score@, m),
            map@.valid(neighbor) ==> known(final(self).g_score@, start, neighbor) && cost_of(
                final(self).g_score@,
                neighbor,
            ) <= cost + 1,
            final(self).g_score.room() == old(self).g_score.room(),
            final(self).g_score.count() >= old(self).g_score.count(),
            final(self).g_score.count() == old(self).g_score.count() ==> final(self).g_score.total()
                <= old(self).g_score.total(),
            final(self).g_score.count() == old(self).g_score.count() && final(self).g_score.total()
                == old(self).g_score.total() ==> final(self).open@ == old(self).open@,
    {
        proof {
            reveal(SearchState::inv);
        }
        if !is_valid_position(map, neighbor) {
            return ;
        }
        proof {
            map.lemma_wf();
            self.g_score.lemma_keys();
        }
        let tentative = cost + 1;
        let better = match self.g_score.get(neighbor) {
            None => true,
            Some(recorded) => tentative < recorded,
        };
        if better {
            assert(neighbor != start);
            assert(neighbor != position);
            self.from.insert(neighbor, position);
            self.g_score.record(neighbor, tentative);
            proof {
                self.g_score.lemma_keys();
                assert(manhattan(neighbor, target) <= map@.width + map@.height);
            }
            let priority = tentative + heuristic(neighbor, target);
            let node = Node { position: neighbor, cost: priority };
            self.open.push(node);
            proof {
                self.wit@ = self.wit@.insert(neighbor, node);
                let gv = map@;
                let g0 = old(self).g_score@;
                let g1 = self.g_score@;
                assert forall|m: V2| #[trigger] known(g0, start, m) implies known(g1, start, m)
                    && cost_of(g1, m) <= cost_of(g0, m) by {}
                assert forall|c: V2| known(g1, start, c) && c != neighbor implies known(
                    g0,
                    start,
                    c,
                ) && cost_of(g1, c) == cost_of(g0, c) by {}
                assert(self.tables_ok(gv, start));
                assert(self.links_ok(gv, start)) by {
                    assert forall|c: V2| #[trigger] self.from@.contains_key(c) implies {
                        &&& c != start
                        &&& g1.contains_key(c)
                        &&& gv.valid(c)
                        &&& known(g1, start, self.from@[c])
                        &&& adjacent(self.from@[c], c)
                        &&& cost_of(g1, self.from@[c]) + 1 <= g1[c]
                    } by {
                        if c != neighbor {
                            assert(old(self).from@.contains_key(c));
                            let p = old(self).from@[c];
                            assert(known(g0, start, p));
                        }
                    }
                }
                assert(self.queue_ok(start, target)) by {
                    assert forall|n: Node| #[trigger] self.open@.count(n) > 0 implies {
                        &&& known(g1, start, n.position)
                        &&& n.position != start ==> n.cost >= cost_of(g1, n.position) + manhattan(
                            n.position,
                            target,
                        )
                    } by {
                        if n != node {
                            assert(old(self).open@.count(n) > 0);
                            assert(known(g0, start, n.position));
                        }
                    }
                }
                assert(self.waiting_ok(start, target, Some(position))) by {
                    assert forall|c: V2| #[trigger]
                        known(g1, start, c) && !self.settled(c) && Some(position) != Some(
                            c,
                        ) implies {
                        &&& self.wit@.contains_key(c)
                        &&& self.open@.count(self.wit@[c]) > 0
                        &&& self.wit@[c].position == c
                        &&& self.wit@[c].cost <= cost_of(g1, c) + manhattan(c, target)
                    } by {
                        if c != neighbor {
                            assert(known(g0, start, c));
                            assert(!old(self).settled(c));
                        }
                    }
                }
                assert(self.done_ok(gv, start, target)) by {
                    assert forall|c: V2| #[trigger] self.done@.contains_key(c) implies known(
                        g1,
                        start,
                        c,
                    ) && self.done@[c] >= cost_of(g1, c) by {
                        assert(known(g0, start, c));
                    }
                    assert forall|c: V2, n: V2|
                        self.settled(c) && gv.valid(n) && #[trigger] adjacent(c, n) implies known(
                            g1,
                            start,
                            n,
                        ) && cost_of(g1, n) <= cost_of(g1, c) + 1 by {
                        assert(self.done@.contains_key(c));
                        assert(known(g0, start, c));
                        if c == neighbor {
                            assert(false);
                        }
                        assert(old(self).settled(c));
                        assert(known(g0, start, n));
                    }
                }
            }
        }
    }

    /// Offers each of the four neighbours of `position` the way through it.
    fn expand(&mut self, map: &Grid, Ghost(start): Ghost<V2>, target: V2, position: V2)
        requires
            map.wf(),
            map@.valid(target),
            position != target,
            old(self).g_score.wf(),
            old(self).inv(map@, start, target, Some(position)),
            known(old(self).g_score@, start, position),
            position == start || map@.valid(position),
        ensures
            final(self).inv(map@, start, target, None),
            final(self).g_score.room() == old(self).g_score.room(),
            final(self).g_score.count() >= old(self).g_score.count(),
            final(self).g_score.count() == old(self).g_score.count() ==> final(self).g_score.total()
                <= old(self).g_score.total(),
            final(self).g_score.count() == old(self).g_score.count() && final(self).g_score.total()
                == old(self).g_score.total() ==> final(self).open@ == old(self).open@,
    {
        let cost = match self.g_score.get(position) {
            Some(c) => c,
            None => 0,
        };
        if position.x > 0 {
            let left = V2 { x: position.x - 1, y: position.y };
            self.relax(map, Ghost(start), target, position, cost, left);
        }
        if position.y > 0 {
            let above = V2 { x: position.x, y: position.y - 1 };
            self.relax(map, Ghost(start), target, position, cost, above);
        }
        if position.y < usize::MAX {
            let below = V2 { x: position.x, y: position.y + 1 };
            self.relax(map, Ghost(start), target, position, cost, below);
        }
        if position.x < usize::MAX {
            let right = V2 { x: position.x + 1, y: position.y };
            self.relax(map, Ghost(start), target, position, cost, right);
        }
        proof {
            let entered = *self;
            self.done@ = self.done@.insert(position, cost as nat);
            assert forall|n: V2| map@.valid(n) && adjacent(position, n) implies known(
                self.g_score@,
                start,
                n,
            ) && cost_of(self.g_score@, n) <= cost + 1 by {
                assert(n == V2 { x: n.x, y: n.y });
            }
            lemma_settle(&entered, self, map@, start, target, position);
        }
    }
}

/// Once every neighbour of `position` has been offered the way through it,
/// `position` is settled at its present cost.
proof fn lemma_settle(
    before: &SearchState,
    after: &SearchState,
    gv: GridView,
    s: V2,
    t: V2,
    position: V2,
)
    requires
        before.inv(gv, s, t, Some(position)),
        position != t,
        known(before.g_score@, s, position),
        after.g_score == before.g_score,
        after.from == before.from,
        after.open == before.open,
        after.wit@ == before.wit@,
        after.done@ == before.done@.insert(position, cost_of(before.g_score@, position)),
        forall|n: V2|
            gv.valid(n) && #[trigger] adjacent(position, n) ==> known(before.g_score@, s, n)
                && cost_of(before.g_score@, n) <= cost_of(before.g_score@, position) + 1,
    ensures
        after.inv(gv, s, t, None),
{
    reveal(SearchState::inv);
    let g1 = after.g_score@;
    assert(after.settled(position));
    assert(after.waiting_ok(s, t, None)) by {
        assert forall|c: V2| #[trigger]
            known(g1, s, c) && !after.settled(c) && None::<V2> != Some(c) implies {
            &&& after.wit@.contains_key(c)
            &&& after.open@.count(after.wit@[c]) > 0
            &&& after.wit@[c].position == c
            &&& after.wit@[c].cost <= cost_of(g1, c) + manhattan(c, t)
        } by {
            assert(c != position);
            assert(!before.settled(c));
        }
    }
    assert(after.done_ok(gv, s, t)) by {
        assert forall|c: V2, n: V2|
            after.settled(c) && gv.valid(n) && #[trigger] adjacent(c, n) implies known(g1, s, n)
                && cost_of(g1, n) <= cost_of(g1, c) + 1 by {
            if c != position {
                assert(before.settled(c));
            }
        }
    }
}

/// Whatever awaits expansion on a walk from the start stands in the frontier
/// with a priority no larger than the length of the walk.
proof fn lemma_frontier_bound(st: &SearchState, gv: GridView, s: V2, t: V2, q: Seq<V2>, i: int)
    requires
        st.inv(gv, s, t, None),
        connects(gv, q, s, t),
        0 <= i < q.len(),
        known(st.g_score@, s, q[i]),
        cost_of(st.g_score@, q[i]) <= i,
    ensures
        exists|n: Node| #[trigger] st.open@.count(n) > 0 && n.cost <= q.len() - 1,
    decreases q.len() - i,
{
    reveal(SearchState::inv);
    let c = q[i];
    if !st.settled(c) {
        lemma_manhattan_admissible(gv, q, i);
        let n = st.wit@[c];
        assert(st.open@.count(n) > 0 && n.cost <= q.len() - 1);
    } else {
        if i == q.len() - 1 {
            assert(st.done@.contains_key(t));
        } else {
            assert(gv.valid(q[i + 1]) && adjacent(q[i], q[i + 1]));
            lemma_frontier_bound(st, gv, s, t, q, i + 1);
        }
    }
}

/// The predecessor links lead from every known cell back to a cell without
/// a link, in no more steps than the cost recorded for the cell.
proof fn lemma_links_end(st: &SearchState, gv: GridView, s: V2, t: V2, c: V2)
    requires
        st.inv(gv, s, t, None),
        known(st.g_score@, s, c),
    ensures
        chain_ends(st.from@, c, cost_of(st.g_score@, c)),
    decreases cost_of(st.g_score@, c),
{
    reveal(SearchState::inv);
    if st.from@.contains_key(c) {
        let p = st.from@[c];
        lemma_links_end(st, gv, s, t, p);
        let k = cost_of(st.g_score@, p);
        let n = cost_of(st.g_score@, c);
        lemma_ancestor_rests(st.from@, p, k, (n - 1) as nat);
    }
}

/// A line of predecessors has no more steps than the cost of its last cell.
proof fn lemma_lineage_cost(st: &SearchState, gv: GridView, s: V2, t: V2, path: Seq<V2>, j: int)
    requires
        st.inv(gv, s, t, None),
        is_lineage(st.from@, path, path[path.len() - 1]),
        0 <= j < path.len(),
    ensures
        j <= cost_of(st.g_score@, path[j]),
    decreases j,
{
    reveal(SearchState::inv);
    if j > 0 {
        lemma_lineage_cost(st, gv, s, t, path, j - 1);
        assert(st.from@.contains_key(path[j]));
    }
}

/// A route from `start` to `target` over the cells of `map`: a shortest walk
/// over cells that can be entered, or an empty path where there is no walk or
/// the target is a wall. The start itself need not be a cell that can be
/// entered. Which of several shortest walks comes out is not promised.
pub fn a_star(map: &Grid, start: V2, target: V2) -> (path: Vec<V2>)
    requires
        map.wf(),
    ensures
        is_route(map@, path@, start, target),
        map@.is_wall(target) ==> path@.len() == 0,
        !map@.valid(target) && start != target ==> path@.len() == 0,
{
    let blocked = match map.get(target) {
        Some(code) => code == CELL_WALL,
        None => false,
    };
    if blocked {
        return Vec::new();
    }
    if start == target {
        let mut path: Vec<V2> = Vec::new();
        path.push(start);
        assert(connects(map@, path@, start, target));
        return path;
    }
    if !is_valid_position(map, target) {
        assert forall|q: Seq<V2>| !connects(map@, q, start, target) by {
            if connects(map@, q, start, target) {
                assert(map@.valid(q[q.len() - 1]));
            }
        }
        return Vec::new();
    }
    let mut st = SearchState::begin(map, start, target);
    loop
        invariant
            map.wf(),
            map@.valid(target),
            start != target,
            st.inv(map@, start, target, None),
        decreases st.g_score.room() - st.g_score.count(), st.g_score.total(), st.open@.len(),
    {
        proof {
            reveal(SearchState::inv);
            st.g_score.lemma_keys();
        }
        let ghost before = st;
        match st.open.pop() {
            None => {
                assert forall|q: Seq<V2>| !connects(map@, q, start, target) by {
                    if connects(map@, q, start, target) {
                        lemma_frontier_bound(&st, map@, start, target, q, 0);
                    }
                }
                return Vec::new();
            },
            Some(node) => {
                let position = node.position;
                if position == target {
                    proof {
                        lemma_links_end(&before, map@, start, target, target);
                    }
                    let path = reconstruct_path(st.from, target);
                    proof {
                        let gv = map@;
                        let p = path@;
                        assert(p.len() >= 2);
                        assert(before.from@.contains_key(p[1]));
                        assert(known(before.g_score@, start, p[0]));
                        assert(p[0] == start);
                        assert forall|i: int| 0 < i < p.len() implies gv.valid(#[trigger] p[i])
                            && adjacent(p[i - 1], p[i]) by {
                            assert(before.from@.contains_key(p[i]));
                        }
                        assert(connects(gv, p, start, target));
                        lemma_lineage_cost(&before, gv, start, target, p, p.len() - 1);
                        assert forall|q: Seq<V2>| connects(gv, q, start, target) implies p.len()
                            <= q.len() by {
                            lemma_frontier_bound(&before, gv, start, target, q, 0);
                            let m = choose|m: Node| #[trigger]
                                before.open@.count(m) > 0 && m.cost <= q.len() - 1;
                            assert(node.cost <= m.cost);
                        }
                    }
                    return path;
                }
                proof {
                    assert(st.waiting_ok(start, target, Some(position))) by {
                        assert forall|c: V2| #[trigger]
                            known(st.g_score@, start, c) && !st.settled(c) && Some(position)
                                != Some(c) implies {
                            &&& st.wit@.contains_key(c)
                            &&& st.open@.count(st.wit@[c]) > 0
                            &&& st.wit@[c].position == c
                            &&& st.wit@[c].cost <= cost_of(st.g_score@, c) + manhattan(c, target)
                        } by {
                            assert(!before.settled(c));
                            assert(before.wit@[c] != node);
                        }
                    }
                    assert(st.queue_ok(start, target));
                    assert(known(st.g_score@, start, position));
                    assert(position == start || map@.valid(position));
                }
                st.expand(map, Ghost(start), target, position);
                proof {
                    st.g_score.lemma_keys();
                }
            },
        }
    }
}

} // verus!
