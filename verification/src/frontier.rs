//! The search frontier: a binary heap of nodes which gives up a cheapest one
//! first.

use vstd::prelude::*;
use vstd::multiset::Multiset;
use vstd::seq_lib::{to_multiset_build, to_multiset_remove, to_multiset_update};
use crate::grid::Node;

verus! {

/// No node of `s` is cheaper than the node at half its index, its parent.
pub open spec fn heap_ordered(s: Seq<Node>) -> bool {
    forall|i: int| 0 < i < s.len() ==> s[(i - 1) / 2].cost <= (#[trigger] s[i]).cost
}

/// `s` is ordered as a heap but for the node at `k`, which may be cheaper
/// than its parent; the children of `k` are no cheaper than that parent.
spec fn ordered_but_above(s: Seq<Node>, k: int) -> bool {
    &&& forall|i: int| 0 < i < s.len() && i != k ==> s[(i - 1) / 2].cost <= (#[trigger] s[i]).cost
    &&& forall|i: int|
        0 < i < s.len() && k > 0 && (i - 1) / 2 == k ==> s[(k - 1) / 2].cost <= (#[trigger] s[i]).cost
}

/// `s` is ordered as a heap but for the node at `k`, which may be dearer than
/// its children; these are no cheaper than the parent of `k`.
spec fn ordered_but_below(s: Seq<Node>, k: int) -> bool {
    &&& forall|i: int|
        0 < i < s.len() && (i - 1) / 2 != k ==> s[(i - 1) / 2].cost <= (#[trigger] s[i]).cost
    &&& forall|i: int|
        0 < i < s.len() && k > 0 && (i - 1) / 2 == k ==> s[(k - 1) / 2].cost <= (#[trigger] s[i]).cost
}

/// The first node of a heap is a cheapest one.
proof fn lemma_root_is_least(s: Seq<Node>, i: int)
    requires
        heap_ordered(s),
        0 <= i < s.len(),
    ensures
        s[0].cost <= s[i].cost,
    decreases i,
{
    if i > 0 {
        lemma_root_is_least(s, (i - 1) / 2);
    }
}

/// Exchanging two nodes keeps the bag of nodes.
proof fn lemma_swap_keeps_nodes(s: Seq<Node>, i: int, j: int)
    requires
        0 <= i < s.len(),
        0 <= j < s.len(),
    ensures
        s.update(i, s[j]).update(j, s[i]).to_multiset() == s.to_multiset(),
{
    broadcast use vstd::multiset::group_multiset_axioms;

    let t = s.update(i, s[j]);
    to_multiset_update(s, i, s[j]);
    to_multiset_update(t, j, s[i]);
    s.to_multiset_ensures();
    assert(s.contains(s[i]) && s.contains(s[j]));
    assert(t.update(j, s[i]).to_multiset() =~= s.to_multiset());
}

/// A min-priority queue of nodes, ordered by cost. Which of several cheapest
/// nodes leaves first is not promised.
pub struct Frontier {
    nodes: Vec<Node>,
}

impl View for Frontier {
    type V = Multiset<Node>;

    closed spec fn view(&self) -> Multiset<Node> {
        self.nodes@.to_multiset()
    }
}

impl Frontier {
    /// The nodes are ordered as a heap.
    pub closed spec fn wf(&self) -> bool {
        heap_ordered(self.nodes@)
    }

    /// An empty frontier.
    pub fn new() -> (f: Frontier)
        ensures
            f.wf(),
            f@ == Multiset::<Node>::empty(),
    {
        let f = Frontier { nodes: Vec::new() };
        assert(f.nodes@ =~= Seq::<Node>::empty());
        assert(f@ =~= Multiset::<Node>::empty()) by {
            f.nodes@.to_multiset_ensures();
            assert forall|a: Node| f@.count(a) == 0 by {
                assert(!f.nodes@.contains(a));
            }
        }
        f
    }

    /// Number of queued nodes.
    pub fn len(&self) -> (n: usize)
        ensures
            n == self@.len(),
    {
        proof {
            self.nodes@.to_multiset_ensures();
        }
        self.nodes.len()
    }

    /// Whether nothing is queued.
    pub fn is_empty(&self) -> (r: bool)
        ensures
            r == (self@.len() == 0),
    {
        proof {
            self.nodes@.to_multiset_ensures();
        }
        self.nodes.len() == 0
    }

    /// Exchanges the nodes at `i` and `j`.
    fn swap(&mut self, i: usize, j: usize)
        requires
            i < old(self).nodes.len(),
            j < old(self).nodes.len(),
        ensures
            final(self).nodes@ == old(self).nodes@.update(i as int, old(self).nodes[j as int]).update(
                j as int,
                old(self).nodes[i as int],
            ),
            final(self)@ == old(self)@,
    {
        proof {
            lemma_swap_keeps_nodes(self.nodes@, i as int, j as int);
        }
        let a = self.nodes[i];
        let b = self.nodes[j];
        self.nodes[i] = b;
        self.nodes[j] = a;
    }

    /// Queues `node`.
    pub fn push(&mut self, node: Node)
        requires
            old(self).wf(),
        ensures
            final(self).wf(),
            final(self)@ == old(self)@.insert(node),
            final(self)@.len() == old(self)@.len() + 1,
    {
        proof {
            to_multiset_build(self.nodes@, node);
            self.nodes@.to_multiset_ensures();
        }
        self.nodes.push(node);
        proof {
            self.nodes@.to_multiset_ensures();
        }
        let mut k: usize = self.nodes.len() - 1;
        while k > 0
            invariant
                k < self.nodes.len(),
                self.nodes.len() == old(self).nodes.len() + 1,
                self@ == old(self)@.insert(node),
                ordered_but_above(self.nodes@, k as int),
            ensures
                heap_ordered(self.nodes@),
            decreases k,
        {
            let parent: usize = (k - 1) / 2;
            if self.nodes[k].cost >= self.nodes[parent].cost {
                break ;
            }
            self.swap(k, parent);
            k = parent;
        }
    }

    /// Takes out a node of least cost. An empty frontier gives nothing and
    /// stays as it is.
    pub fn pop(&mut self) -> (r: Option<Node>)
        requires
            old(self).wf(),
        ensures
            final(self).wf(),
            r is None <==> old(self)@.len() == 0,
            r is None ==> final(self)@ == old(self)@,
            r matches Some(n) ==> {
                &&& old(self)@.count(n) > 0
                &&& final(self)@ == old(self)@.remove(n)
                &&& final(self)@.len() + 1 == old(self)@.len()
                &&& forall|m: Node| old(self)@.count(m) > 0 ==> n.cost <= m.cost
            },
    {
        proof {
            self.nodes@.to_multiset_ensures();
        }
        let n = self.nodes.len();
        if n == 0 {
            return None;
        }
        let ghost before = self.nodes@;
        let top = self.nodes[0];
        proof {
            assert(before.contains(top));
            assert forall|m: Node| before.to_multiset().count(m) > 0 implies top.cost <= m.cost by {
                assert(before.contains(m));
                let j = choose|j: int| 0 <= j < before.len() && before[j] == m;
                lemma_root_is_least(before, j);
            }
        }
        let last = self.nodes.pop().unwrap();
        proof {
            assert(self.nodes@ =~= before.remove(n - 1));
            to_multiset_remove(before, n - 1);
            self.nodes@.to_multiset_ensures();
        }
        if n == 1 {
            return Some(top);
        }
        proof {
            broadcast use vstd::multiset::group_multiset_axioms;

            to_multiset_update(self.nodes@, 0, last);
            assert(before.contains(last));
            assert(self.nodes@.update(0, last).to_multiset() =~= before.to_multiset().remove(top));
        }
        self.nodes[0] = last;
        proof {
            self.nodes@.to_multiset_ensures();
        }
        let m: usize = n - 1;
        let mut k: usize = 0;
        loop
            invariant
                m == self.nodes.len(),
                m == before.len() - 1,
                m > 0,
                k < m,
                self@ == before.to_multiset().remove(top),
                ordered_but_below(self.nodes@, k as int),
            ensures
                heap_ordered(self.nodes@),
                self@ == before.to_multiset().remove(top),
                m == self.nodes.len(),
            decreases m - k,
        {
            if m < 2 || k > (m - 2) / 2 {
                break ;
            }
            let left: usize = 2 * k + 1;
            let mut least: usize = k;
            if self.nodes[left].cost < self.nodes[least].cost {
                least = left;
            }
            if left + 1 < m && self.nodes[left + 1].cost < self.nodes[least].cost {
                least = left + 1;
            }
            if least == k {
                break ;
            }
            self.swap(k, least);
            k = least;
        }
        Some(top)
    }
}

} // verus!
