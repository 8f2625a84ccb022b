//! Dependency graphs over items, with edges labelled by locality, and the
//! breadth-first walk over their local edges.
use crate::ids::Item;
use vstd::prelude::*;

verus! {

/// `Local` dependencies are compiled together with the item; `External` ones
/// are reached only through a call into another deployed contract.
#[derive(Debug, Clone, Copy, PartialEq, Eq, Hash, Structural)]
pub enum DepLocality {
    Local,
    External,
}

/// A directed graph over items; each edge has a locality.
#[derive(Debug, Clone)]
pub struct DepGraph {
    pub nodes: Vec<Item>,
    pub edges: Vec<(Item, Item, DepLocality)>,
}

/// `edges` holds a local edge from `a` to `b`.
pub open spec fn local_edge(edges: Seq<(Item, Item, DepLocality)>, a: Item, b: Item) -> bool {
    exists|j: int| 0 <= j < edges.len() && edges[j] == (a, b, DepLocality::Local)
}

/// `p` walks along local edges.
pub open spec fn is_local_path(edges: Seq<(Item, Item, DepLocality)>, p: Seq<Item>) -> bool {
    p.len() >= 1 && forall|i: int| 0 <= i < p.len() - 1 ==> local_edge(edges, #[trigger] p[i], p[i + 1])
}

/// `x` can be reached from `root` along local edges (`root` itself included).
pub open spec fn reachable(edges: Seq<(Item, Item, DepLocality)>, root: Item, x: Item) -> bool {
    exists|p: Seq<Item>| is_local_path(edges, p) && p[0] == root && p.last() == x
}

/// The items that can stand in a walk from `root`: `root` and every target.
pub open spec fn candidates(edges: Seq<(Item, Item, DepLocality)>, root: Item) -> Set<Item> {
    (seq![root] + edges.map_values(|e: (Item, Item, DepLocality)| e.1)).to_set()
}

/// Whether `v` holds `x`.
pub fn contains_item(v: &Vec<Item>, x: Item) -> (r: bool)
    ensures
        r == v@.contains(x),
{
    let mut i: usize = 0;
    while i < v.len()
        invariant
            i <= v@.len(),
            forall|j: int| 0 <= j < i ==> v@[j] != x,
        decreases v@.len() - i,
    {
        if v[i] == x {
            return true;
        }
        i = i + 1;
    }
    false
}

proof fn lemma_extend_path(edges: Seq<(Item, Item, DepLocality)>, root: Item, x: Item, y: Item)
    requires
        reachable(edges, root, x),
        local_edge(edges, x, y),
    ensures
        reachable(edges, root, y),
{
    let p = choose|p: Seq<Item>| is_local_path(edges, p) && p[0] == root && p.last() == x;
    let q = p.push(y);
    assert forall|i: int| 0 <= i < q.len() - 1 implies local_edge(edges, #[trigger] q[i], q[i + 1]) by {
        if i < p.len() - 1 {
            assert(q[i] == p[i] && q[i + 1] == p[i + 1]);
        } else {
            assert(q[i] == x && q[i + 1] == y);
        }
    }
    assert(q[0] == root && q.last() == y);
}

proof fn lemma_root_reachable(edges: Seq<(Item, Item, DepLocality)>, root: Item)
    ensures
        reachable(edges, root, root),
{
    let p = seq![root];
    assert(is_local_path(edges, p));
    assert(p[0] == root && p.last() == root);
}

/// A set of items that holds `root` and is closed under local edges holds
/// every item reachable from `root`.
proof fn lemma_closed_holds_reachable(
    edges: Seq<(Item, Item, DepLocality)>,
    root: Item,
    v: Seq<Item>,
    x: Item,
)
    requires
        v.contains(root),
        forall|a: Item, b: Item| v.contains(a) && local_edge(edges, a, b) ==> v.contains(b),
        reachable(edges, root, x),
    ensures
        v.contains(x),
{
    let p = choose|p: Seq<Item>| is_local_path(edges, p) && p[0] == root && p.last() == x;
    lemma_closed_path(edges, v, p, p.len() - 1);
}

proof fn lemma_closed_path(edges: Seq<(Item, Item, DepLocality)>, v: Seq<Item>, p: Seq<Item>, i: int)
    requires
        is_local_path(edges, p),
        0 <= i < p.len(),
        v.contains(p[0]),
        forall|a: Item, b: Item| v.contains(a) && local_edge(edges, a, b) ==> v.contains(b),
    ensures
        v.contains(p[i]),
    decreases i,
{
    if i > 0 {
        lemma_closed_path(edges, v, p, i - 1);
        assert(local_edge(edges, p[i - 1], p[i]));
    }
}

/// Walks `graph` breadth-first from `root` along local edges only, and
/// returns the items reached in the order reached: `root` first, each
/// reachable item exactly once, and nothing else.
pub fn walk_local_dependencies(graph: &DepGraph, root: Item) -> (r: Vec<Item>)
    ensures
        r@.len() >= 1,
        r@[0] == root,
        r@.no_duplicates(),
        forall|x: Item| r@.contains(x) <==> reachable(graph.edges@, root, x),
{
    let ghost es = graph.edges@;
    let ghost cand = candidates(es, root);
    proof {
        (seq![root] + es.map_values(|e: (Item, Item, DepLocality)| e.1)).lemma_cardinality_of_set();
        lemma_root_reachable(es, root);
        assert((seq![root] + es.map_values(|e: (Item, Item, DepLocality)| e.1))[0] == root);
    }
    let mut visited: Vec<Item> = vec![root];
    let mut head: usize = 0;
    while head < visited.len()
        invariant
            es == graph.edges@,
            cand == candidates(es, root),
            cand.finite(),
            cand.len() <= es.len() + 1,
            cand.contains(root),
            head <= visited@.len(),
            visited@.len() >= 1,
            visited@[0] == root,
            visited@.no_duplicates(),
            forall|x: Item| visited@.contains(x) ==> cand.contains(x),
            forall|x: Item| visited@.contains(x) ==> reachable(es, root, x),
            forall|i: int, j: int|
                0 <= i < head && 0 <= j < es.len() && (#[trigger] es[j]).0 == #[trigger] visited@[i] && es[j].2
                    == DepLocality::Local ==> visited@.contains(es[j].1),
        decreases es.len() + 1 - head,
    {
        proof {
            visited@.unique_seq_to_set();
            vstd::set_lib::lemma_len_subset(visited@.to_set(), cand);
        }
        let x = visited[head];
        let mut j: usize = 0;
        while j < graph.edges.len()
            invariant
                es == graph.edges@,
                cand == candidates(es, root),
                head < visited@.len(),
                x == visited@[head as int],
                visited@.len() >= 1,
                visited@[0] == root,
                visited@.no_duplicates(),
                forall|y: Item| visited@.contains(y) ==> cand.contains(y),
                forall|y: Item| visited@.contains(y) ==> reachable(es, root, y),
                forall|i: int, k: int|
                    0 <= i < head && 0 <= k < es.len() && (#[trigger] es[k]).0 == #[trigger] visited@[i] && es[k].2
                        == DepLocality::Local ==> visited@.contains(es[k].1),
                forall|k: int|
                    0 <= k < j && es[k].0 == x && es[k].2 == DepLocality::Local ==> visited@.contains(
                        #[trigger] es[k].1,
                    ),
            decreases es.len() - j,
        {
            let e = graph.edges[j];
            if e.0 == x && e.2 == DepLocality::Local && !contains_item(&visited, e.1) {
                let ghost before = visited@;
                proof {
                    assert(before.contains(x));
                    assert(local_edge(es, x, e.1));
                    lemma_extend_path(es, root, x, e.1);
                    let t = seq![root] + es.map_values(|e: (Item, Item, DepLocality)| e.1);
                    assert(t[j as int + 1] == e.1);
                }
                visited.push(e.1);
                proof {
                    assert(visited@ == before.push(e.1));
                    assert forall|y: Item| visited@.contains(y) implies cand.contains(y) && reachable(es, root, y) by {
                        if y != e.1 {
                            let k = choose|k: int| 0 <= k < visited@.len() && visited@[k] == y;
                            assert(before[k] == y);
                        }
                    }
                    assert forall|a: int, b: int| 0 <= a < b < visited@.len() implies visited@[a] != visited@[b] by {
                        if b == before.len() {
                            assert(before.contains(visited@[a]));
                        }
                    }
                    assert forall|y: Item| before.contains(y) implies visited@.contains(y) by {
                        let k = choose|k: int| 0 <= k < before.len() && before[k] == y;
                        assert(visited@[k] == y);
                    }
                    assert(visited@[before.len() as int] == e.1);
                }
            }
            j = j + 1;
        }
        head = head + 1;
    }
    proof {
        assert forall|x: Item| reachable(es, root, x) implies visited@.contains(x) by {
            assert forall|a: Item, b: Item| visited@.contains(a) && local_edge(es, a, b) implies visited@.contains(b) by {
                let i = choose|i: int| 0 <= i < visited@.len() && visited@[i] == a;
                let k = choose|k: int| 0 <= k < es.len() && es[k] == (a, b, DepLocality::Local);
                assert(es[k].0 == visited@[i]);
            }
            assert(visited@.contains(root)) by {
                assert(visited@[0] == root);
            }
            lemma_closed_holds_reachable(es, root, visited@, x);
        }
    }
    visited
}

impl DepGraph {
    /// Structural equality: the same nodes and the same edges, in the same order.
    pub fn same_as(&self, other: &DepGraph) -> (r: bool)
        ensures
            r == (self.nodes@ == other.nodes@ && self.edges@ == other.edges@),
    {
        if self.nodes.len() != other.nodes.len() || self.edges.len() != other.edges.len() {
            return false;
        }
        let mut i: usize = 0;
        while i < self.nodes.len()
            invariant
                i <= self.nodes@.len(),
                self.nodes@.len() == other.nodes@.len(),
                forall|j: int| 0 <= j < i ==> self.nodes@[j] == other.nodes@[j],
            decreases self.nodes@.len() - i,
        {
            if self.nodes[i] != other.nodes[i] {
                return false;
            }
            i = i + 1;
        }
        let mut k: usize = 0;
        while k < self.edges.len()
            invariant
                k <= self.edges@.len(),
                self.edges@.len() == other.edges@.len(),
                self.nodes@ =~= other.nodes@,
                forall|j: int| 0 <= j < k ==> self.edges@[j] == other.edges@[j],
            decreases self.edges@.len() - k,
        {
            let a = self.edges[k];
            let b = other.edges[k];
            if !(a.0 == b.0 && a.1 == b.1 && a.2 == b.2) {
                return false;
            }
            k = k + 1;
        }
        assert(self.edges@ =~= other.edges@);
        true
    }
}

} // verus!
