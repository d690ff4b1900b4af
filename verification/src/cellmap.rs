//! Tables keyed by grid cell. The search keeps its cost and predecessor
//! records in them.

use vstd::prelude::*;
use crate::grid::{GridView, V2, lemma_index_in_range, lemma_index_injective};

verus! {

/// How many places of `s` are filled.
pub open spec fn count_some<T>(s: Seq<Option<T>>) -> nat
    decreases s.len(),
{
    if s.len() == 0 {
        0
    } else {
        count_some(s.drop_last()) + if s.last() is Some {
            1nat
        } else {
            0nat
        }
    }
}

/// The sum of the numbers that fill places of `s`.
pub open spec fn sum_some(s: Seq<Option<usize>>) -> nat
    decreases s.len(),
{
    if s.len() == 0 {
        0
    } else {
        sum_some(s.drop_last()) + match s.last() {
            Some(v) => v as nat,
            None => 0nat,
        }
    }
}

/// No more places are filled than there are places.
proof fn lemma_count_bound<T>(s: Seq<Option<T>>)
    ensures
        count_some(s) <= s.len(),
    decreases s.len(),
{
    if s.len() > 0 {
        lemma_count_bound(s.drop_last());
    }
}

/// Filling a place adds one to the count where the place was empty.
proof fn lemma_count_update<T>(s: Seq<Option<T>>, i: int, v: T)
    requires
        0 <= i < s.len(),
    ensures
        count_some(s.update(i, Some(v))) == count_some(s) + if s[i] is Some {
            0nat
        } else {
            1nat
        },
    decreases s.len(),
{
    let u = s.update(i, Some(v));
    if i == s.len() - 1 {
        assert(u.drop_last() =~= s.drop_last());
    } else {
        assert(u.drop_last() =~= s.drop_last().update(i, Some(v)));
        lemma_count_update(s.drop_last(), i, v);
    }
}

/// Filling a place changes the sum by the difference of the numbers.
proof fn lemma_sum_update(s: Seq<Option<usize>>, i: int, v: usize)
    requires
        0 <= i < s.len(),
    ensures
        sum_some(s.update(i, Some(v))) + (match s[i] {
            Some(w) => w as nat,
            None => 0nat,
        }) == sum_some(s) + v,
    decreases s.len(),
{
    let u = s.update(i, Some(v));
    if i == s.len() - 1 {
        assert(u.drop_last() =~= s.drop_last());
    } else {
        assert(u.drop_last() =~= s.drop_last().update(i, Some(v)));
        lemma_sum_update(s.drop_last(), i, v);
    }
}

/// Without filled places the count is zero.
proof fn lemma_count_none<T>(s: Seq<Option<T>>)
    requires
        forall|i: int| 0 <= i < s.len() ==> s[i] is None,
    ensures
        count_some(s) == 0,
    decreases s.len(),
{
    if s.len() > 0 {
        lemma_count_none(s.drop_last());
    }
}

/// Without filled places the sum is zero.
proof fn lemma_sum_none(s: Seq<Option<usize>>)
    requires
        forall|i: int| 0 <= i < s.len() ==> s[i] is None,
    ensures
        sum_some(s) == 0,
    decreases s.len(),
{
    if s.len() > 0 {
        lemma_sum_none(s.drop_last());
    }
}

/// A partial map from the cells of a `width` by `height` grid to values.
pub struct CellMap<T> {
    width: usize,
    height: usize,
    slots: Vec<Option<T>>,
}

impl<T> View for CellMap<T> {
    type V = Map<V2, T>;

    closed spec fn view(&self) -> Map<V2, T> {
        Map::new(
            |c: V2| self.extent().in_bounds(c) && self.slots[self.extent().index_of(c)] is Some,
            |c: V2| self.slots[self.extent().index_of(c)]->0,
        )
    }
}

impl<T> CellMap<T> {
    /// The grid whose cells are the possible keys; its codes say nothing.
    pub closed spec fn extent(&self) -> GridView {
        GridView {
            width: self.width as nat,
            height: self.height as nat,
            cells: Seq::new(self.slots.len() as nat, |i: int| 0i32),
        }
    }

    /// There is one place for each cell.
    pub closed spec fn wf(&self) -> bool {
        self.slots.len() == self.width * self.height
    }

    /// Number of cells that have a value.
    pub closed spec fn count(&self) -> nat {
        count_some(self.slots@)
    }

    /// Number of cells that can have a value.
    pub closed spec fn room(&self) -> nat {
        self.slots.len() as nat
    }

    /// Only cells of the extent have values, and no more cells have a value
    /// than there is room for.
    pub proof fn lemma_keys(&self)
        requires
            self.wf(),
        ensures
            forall|c: V2| self@.contains_key(c) ==> c.x < self.extent().width && c.y
                < self.extent().height,
            self.count() <= self.room(),
            self.room() == self.extent().width * self.extent().height,
    {
        lemma_count_bound(self.slots@);
    }

    /// A table in which no place is filled.
    fn blank(width: usize, height: usize) -> (m: Self)
        requires
            width * height <= usize::MAX,
        ensures
            m.wf(),
            m.extent().width == width,
            m.extent().height == height,
            m@ == Map::<V2, T>::empty(),
            m.count() == 0,
            m.room() == width * height,
            forall|i: int| 0 <= i < m.slots.len() ==> m.slots[i] is None,
    {
        let n = width * height;
        let mut slots: Vec<Option<T>> = Vec::new();
        let mut i: usize = 0;
        while i < n
            invariant
                i <= n,
                slots.len() == i,
                forall|j: int| 0 <= j < i ==> slots[j] is None,
            decreases n - i,
        {
            slots.push(None);
            i += 1;
        }
        let m = CellMap { width, height, slots };
        proof {
            lemma_count_none(m.slots@);
            assert forall|c: V2| !m@.contains_key(c) by {
                if m.extent().in_bounds(c) {
                    lemma_index_in_range(m.extent(), c);
                }
            }
            assert(m@ =~= Map::<V2, T>::empty());
        }
        m
    }

    /// An empty table for the cells of a `width` by `height` grid.
    pub fn new(width: usize, height: usize) -> (m: Self)
        requires
            width * height <= usize::MAX,
        ensures
            m.wf(),
            m.extent().width == width,
            m.extent().height == height,
            m@ == Map::<V2, T>::empty(),
            m.count() == 0,
            m.room() == width * height,
    {
        Self::blank(width, height)
    }

    /// Whether the cell `c` has a value.
    pub fn contains_key(&self, c: V2) -> (r: bool)
        requires
            self.wf(),
        ensures
            r == self@.contains_key(c),
    {
        if c.x < self.width && c.y < self.height {
            proof {
                lemma_index_in_range(self.extent(), c);
            }
            self.slots[c.y * self.width + c.x].is_some()
        } else {
            false
        }
    }

    /// Fills the place of `c` and says what has changed in the places.
    fn put(&mut self, c: V2, value: T)
        requires
            old(self).wf(),
            old(self).extent().in_bounds(c),
        ensures
            final(self).wf(),
            final(self).extent() == old(self).extent(),
            final(self)@ == old(self)@.insert(c, value),
            final(self).slots@ == old(self).slots@.update(
                old(self).extent().index_of(c),
                Some(value),
            ),
            0 <= old(self).extent().index_of(c) < old(self).slots.len(),
            old(self).slots[old(self).extent().index_of(c)] is Some <==> old(self)@.contains_key(c),
            old(self)@.contains_key(c) ==> old(self).slots[old(self).extent().index_of(c)]->0
                == old(self)@[c],
    {
        proof {
            lemma_index_in_range(self.extent(), c);
        }
        let i = c.y * self.width + c.x;
        self.slots[i] = Some(value);
        proof {
            assert(final(self).extent() =~= old(self).extent());
            assert forall|d: V2|
                final(self)@.contains_key(d) <==> old(self)@.insert(c, value).contains_key(d) by {
                if old(self).extent().in_bounds(d) {
                    lemma_index_in_range(old(self).extent(), d);
                    if d != c && old(self).extent().index_of(d) == old(self).extent().index_of(c) {
                        lemma_index_injective(old(self).extent(), d, c);
                    }
                }
            }
            assert forall|d: V2| final(self)@.contains_key(d) implies final(self)@[d] == old(self)@.insert(c, value)[d] by {
                lemma_index_in_range(old(self).extent(), d);
                if d != c && old(self).extent().index_of(d) == old(self).extent().index_of(c) {
                    lemma_index_injective(old(self).extent(), d, c);
                }
            }
            assert(final(self)@ =~= old(self)@.insert(c, value));
        }
    }

    /// Gives the cell `c` the value `value`, in place of any it had.
    pub fn insert(&mut self, c: V2, value: T)
        requires
            old(self).wf(),
            old(self).extent().in_bounds(c),
        ensures
            final(self).wf(),
            final(self).extent() == old(self).extent(),
            final(self).room() == old(self).room(),
            final(self)@ == old(self)@.insert(c, value),
            final(self).count() == old(self).count() + if old(self)@.contains_key(c) {
                0nat
            } else {
                1nat
            },
    {
        proof {
            lemma_index_in_range(self.extent(), c);
            lemma_count_update(self.slots@, self.extent().index_of(c), value);
        }
        self.put(c, value);
    }
}

impl<T: Copy> CellMap<T> {
    /// The value of the cell `c`, if it has one.
    pub fn get(&self, c: V2) -> (r: Option<T>)
        requires
            self.wf(),
        ensures
            r == if self@.contains_key(c) { Some(self@[c]) } else { None },
    {
        if c.x < self.width && c.y < self.height {
            proof {
                lemma_index_in_range(self.extent(), c);
            }
            self.slots[c.y * self.width + c.x]
        } else {
            None
        }
    }
}

impl CellMap<usize> {
    /// The sum of all values.
    pub closed spec fn total(&self) -> nat {
        sum_some(self.slots@)
    }

    /// An empty table of costs.
    pub fn new_costs(width: usize, height: usize) -> (m: Self)
        requires
            width * height <= usize::MAX,
        ensures
            m.wf(),
            m.extent().width == width,
            m.extent().height == height,
            m@ == Map::<V2, usize>::empty(),
            m.count() == 0,
            m.total() == 0,
            m.room() == width * height,
    {
        let m = Self::blank(width, height);
        proof {
            lemma_sum_none(m.slots@);
        }
        m
    }

    /// Records the cost `value` for the cell `c`, in place of any it had.
    pub fn record(&mut self, c: V2, value: usize)
        requires
            old(self).wf(),
            old(self).extent().in_bounds(c),
        ensures
            final(self).wf(),
            final(self).extent() == old(self).extent(),
            final(self).room() == old(self).room(),
            final(self)@ == old(self)@.insert(c, value),
            final(self).count() == old(self).count() + if old(self)@.contains_key(c) {
                0nat
            } else {
                1nat
            },
            final(self).total() + (if old(self)@.contains_key(c) {
                old(self)@[c] as nat
            } else {
                0nat
            }) == old(self).total() + value,
    {
        proof {
            lemma_index_in_range(self.extent(), c);
            lemma_count_update(self.slots@, self.extent().index_of(c), value);
            lemma_sum_update(self.slots@, self.extent().index_of(c), value);
        }
        self.put(c, value);
    }
}

} // verus!
