//! The frontier of a search: a binary heap that gives out the cheapest node first.
use crate::tile_map::Tile;
use vstd::multiset::Multiset;
use vstd::prelude::*;

verus! {

/// A tile to be looked at, with the cost that orders it.
#[derive(Clone, Copy)]
pub struct Node {
    pub cost: u64,
    pub pos: Tile,
}

/// Nodes in heap order: no node is cheaper than the one at half its index.
pub struct Frontier {
    nodes: Vec<Node>,
}

spec fn parent(i: int) -> int {
    (i - 1) / 2
}

spec fn in_order(s: Seq<Node>, i: int) -> bool {
    s[parent(i)].cost <= s[i].cost
}

/// Whether every node is in order.
spec fn heap(s: Seq<Node>) -> bool {
    forall|i: int| 0 < i < s.len() ==> #[trigger] in_order(s, i)
}

/// Whether every node but the one at `h` is in order, and its children also by its parent.
spec fn heap_but_for(s: Seq<Node>, h: int) -> bool {
    &&& 0 <= h < s.len()
    &&& forall|i: int| 0 < i < s.len() && i != h ==> #[trigger] in_order(s, i)
    &&& h > 0 ==> forall|i: int|
        0 < i < s.len() && parent(i) == h ==> s[parent(h)].cost <= (#[trigger] s[i]).cost
}

/// Whether every node but the one at `h` and its children is in order, and these by its parent.
spec fn heap_around(s: Seq<Node>, h: int) -> bool {
    &&& 0 <= h < s.len()
    &&& forall|i: int|
        0 < i < s.len() && i != h && parent(i) != h ==> #[trigger] in_order(s, i)
    &&& h > 0 ==> forall|i: int|
        0 < i < s.len() && parent(i) == h ==> s[parent(h)].cost <= (#[trigger] s[i]).cost
}

proof fn lemma_first_is_cheapest(s: Seq<Node>, i: int)
    requires
        heap(s),
        0 <= i < s.len(),
    ensures
        s[0].cost <= s[i].cost,
    decreases i,
{
    if i > 0 {
        assert(in_order(s, i));
        lemma_first_is_cheapest(s, parent(i));
    }
}

proof fn lemma_swap_keeps_nodes(s: Seq<Node>, i: int, j: int)
    requires
        0 <= i < s.len(),
        0 <= j < s.len(),
    ensures
        s.update(i, s[j]).update(j, s[i]).to_multiset() == s.to_multiset(),
{
    broadcast use vstd::seq_lib::group_to_multiset_ensures;

    let t = s.update(i, s[j]);
    vstd::seq_lib::to_multiset_update(s, i, s[j]);
    vstd::seq_lib::to_multiset_update(t, j, s[i]);
    assert(s.to_multiset().contains(s[i])) by {
        assert(s.contains(s[i]));
    }
    assert(s.to_multiset().contains(s[j])) by {
        assert(s.contains(s[j]));
    }
    assert(t.update(j, s[i]).to_multiset() =~= s.to_multiset());
}

impl View for Frontier {
    type V = Multiset<Node>;

    closed spec fn view(&self) -> Multiset<Node> {
        self.nodes@.to_multiset()
    }
}

impl Frontier {
    /// Whether the nodes are in heap order.
    pub closed spec fn wf(&self) -> bool {
        heap(self.nodes@)
    }

    /// A frontier without nodes.
    pub fn new() -> (f: Frontier)
        ensures
            f.wf(),
            f@ == Multiset::<Node>::empty(),
    {
        broadcast use vstd::seq_lib::group_to_multiset_ensures;

        let f = Frontier { nodes: Vec::new() };
        assert(f@ =~= Multiset::<Node>::empty());
        f
    }

    fn swap(&mut self, i: usize, j: usize)
        requires
            i < old(self).nodes@.len(),
            j < old(self).nodes@.len(),
        ensures
            final(self).nodes@ == old(self).nodes@.update(i as int, old(self).nodes@[j as int]).update(
                j as int,
                old(self).nodes@[i as int],
            ),
            final(self)@ == old(self)@,
    {
        proof {
            lemma_swap_keeps_nodes(self.nodes@, i as int, j as int);
        }
        let a: Node = self.nodes[i];
        let b: Node = self.nodes[j];
        self.nodes.set(i, b);
        self.nodes.set(j, a);
    }

    fn sift_up(&mut self, start: usize)
        requires
            heap_but_for(old(self).nodes@, start as int),
        ensures
            final(self).wf(),
            final(self)@ == old(self)@,
    {
        let mut h: usize = start;
        while h > 0
            invariant_except_break
                heap_but_for(self.nodes@, h as int),
            invariant
                self@ == old(self)@,
            ensures
                heap(self.nodes@),
            decreases h,
        {
            let p: usize = (h - 1) / 2;
            if self.nodes[h].cost >= self.nodes[p].cost {
                assert(in_order(self.nodes@, h as int));
                break;
            }
            let ghost s = self.nodes@;
            self.swap(h, p);
            proof {
                let t = self.nodes@;
                assert forall|i: int| 0 < i < t.len() && i != p implies #[trigger] in_order(
                    t,
                    i,
                ) by {
                    if i == h {
                    } else {
                        assert(in_order(s, i));
                        if parent(i) == h {
                            assert(s[p as int].cost <= s[i].cost);
                        }
                    }
                }
                if p > 0 {
                    assert(in_order(s, p as int));
                    assert forall|i: int| 0 < i < t.len() && parent(i) == p implies t[parent(
                        p as int,
                    )].cost <= (#[trigger] t[i]).cost by {
                        if i != h {
                            assert(in_order(s, i));
                        }
                    }
                }
            }
            h = p;
        }
    }

    fn sift_down(&mut self) -> (h: usize)
        requires
            heap_around(old(self).nodes@, 0),
        ensures
            heap_but_for(final(self).nodes@, h as int),
            final(self)@ == old(self)@,
    {
        let end: usize = self.nodes.len();
        let mut h: usize = 0;
        while h < end / 2 && 2 * h + 2 < end
            invariant
                end == self.nodes@.len(),
                heap_around(self.nodes@, h as int),
                self@ == old(self)@,
            decreases end - h,
        {
            let left: usize = 2 * h + 1;
            let c: usize = if self.nodes[left].cost >= self.nodes[left + 1].cost {
                left + 1
            } else {
                left
            };
            let ghost s = self.nodes@;
            self.swap(h, c);
            proof {
                lemma_stepped_down(s, self.nodes@, h as int, c as int);
            }
            h = c;
        }
        if h < end / 2 && 2 * h + 1 < end {
            let c: usize = 2 * h + 1;
            let ghost s = self.nodes@;
            self.swap(h, c);
            proof {
                lemma_stepped_down(s, self.nodes@, h as int, c as int);
            }
            h = c;
        }
        h
    }

    /// Adds a node.
    pub fn push(&mut self, node: Node)
        requires
            old(self).wf(),
        ensures
            final(self).wf(),
            final(self)@ == old(self)@.insert(node),
    {
        broadcast use vstd::seq_lib::group_to_multiset_ensures;

        let ghost s = self.nodes@;
        let last: usize = self.nodes.len();
        self.nodes.push(node);
        assert(heap_but_for(self.nodes@, last as int)) by {
            let t = self.nodes@;
            assert forall|i: int| 0 < i < t.len() && i != last implies #[trigger] in_order(t, i) by {
                assert(in_order(s, i));
            }
        }
        self.sift_up(last);
    }

    /// Takes out a node than which none is cheaper.
    pub fn pop(&mut self) -> (r: Option<Node>)
        requires
            old(self).wf(),
        ensures
            final(self).wf(),
            match r {
                Some(node) => {
                    &&& old(self)@.contains(node)
                    &&& final(self)@ == old(self)@.remove(node)
                    &&& forall|other: Node| #[trigger]
                        old(self)@.contains(other) ==> node.cost <= other.cost
                },
                None => old(self)@ == Multiset::<Node>::empty() && final(self)@ == old(self)@,
            },
    {
        broadcast use vstd::seq_lib::group_to_multiset_ensures;

        let ghost s = self.nodes@;
        match self.nodes.pop() {
            None => {
                assert(self.nodes@ =~= s);
                assert(self@ =~= Multiset::<Node>::empty());
                None
            },
            Some(last) => {
                assert(s =~= self.nodes@.push(last));
                assert(s.to_multiset() == self.nodes@.to_multiset().insert(last));
                assert(s.contains(s[0]));
                assert forall|other: Node| #[trigger] s.to_multiset().contains(
                    other,
                ) implies s[0].cost <= other.cost by {
                    assert(s.contains(other));
                    let i = choose|i: int| 0 <= i < s.len() && s[i] == other;
                    lemma_first_is_cheapest(s, i);
                }
                if self.nodes.len() == 0 {
                    assert(self@ =~= s.to_multiset().remove(last));
                    return Some(last);
                }
                let first: Node = self.nodes[0];
                let ghost u = self.nodes@;
                self.nodes.set(0, last);
                proof {
                    vstd::seq_lib::to_multiset_update(u, 0, last);
                    assert(u.contains(u[0]));
                    assert(self@ =~= s.to_multiset().remove(first));
                    let t = self.nodes@;
                    assert forall|i: int|
                        0 < i < t.len() && i != 0 && parent(i) != 0 implies #[trigger] in_order(
                        t,
                        i,
                    ) by {
                        assert(in_order(s, i));
                    }
                }
                let h: usize = self.sift_down();
                self.sift_up(h);
                Some(first)
            },
        }
    }
}

proof fn lemma_stepped_down(s: Seq<Node>, t: Seq<Node>, h: int, c: int)
    requires
        heap_around(s, h),
        0 < c < s.len(),
        parent(c) == h,
        forall|i: int| 0 < i < s.len() && parent(i) == h ==> s[c].cost <= (#[trigger] s[i]).cost,
        t == s.update(h, s[c]).update(c, s[h]),
    ensures
        heap_around(t, c),
{
    assert forall|i: int| 0 < i < t.len() && i != c && parent(i) != c implies #[trigger] in_order(
        t,
        i,
    ) by {
        if i == h {
        } else if parent(i) == h {
            assert(s[c].cost <= s[i].cost);
        } else {
            assert(in_order(s, i));
        }
    }
    assert forall|i: int| 0 < i < t.len() && parent(i) == c implies t[parent(c)].cost <= (
    #[trigger] t[i]).cost by {
        assert(in_order(s, i));
    }
}

} // verus!
