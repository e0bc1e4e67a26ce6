//! Directed graph over opaque node values, with depth-first cycle detection.
use std::collections::{HashMap, HashSet};
use std::hash::Hash;
use vstd::prelude::*;
use vstd::set_lib::lemma_len_subset;
use vstd::std_specs::hash::obeys_key_model;
use crate::contents::{lemma_push_to_set, map_keys, set_items};

verus! {

/// Whether `walk[i]` and `walk[i + 1]` are joined by an edge.
pub open spec fn step<T>(edges: Set<(T, T)>, walk: Seq<T>, i: int) -> bool {
    edges.contains((walk[i], walk[i + 1]))
}

/// A walk follows at least one edge, and every two neighbours in it are
/// joined by an edge.
pub open spec fn is_walk<T>(edges: Set<(T, T)>, walk: Seq<T>) -> bool {
    &&& walk.len() >= 2
    &&& forall|i: int| 0 <= i < walk.len() - 1 ==> #[trigger] step(edges, walk, i)
}

/// A cycle is a walk that ends where it began.
pub open spec fn is_cycle<T>(edges: Set<(T, T)>, walk: Seq<T>) -> bool {
    &&& is_walk(edges, walk)
    &&& walk.first() == walk.last()
}

/// Whether some walk along `edges` is a cycle.
pub open spec fn has_cycle<T>(edges: Set<(T, T)>) -> bool {
    exists|walk: Seq<T>| is_cycle(edges, walk)
}

/// What a [`Graph`] stands for: its nodes and its directed edges.
#[verifier::reject_recursive_types(T)]
pub struct GraphView<T> {
    pub nodes: Set<T>,
    pub edges: Set<(T, T)>,
}

impl<T> GraphView<T> {
    /// Whether every edge leads to a node.
    pub open spec fn closed(self) -> bool {
        forall|edge: (T, T)| #[trigger] self.edges.contains(edge) ==> self.nodes.contains(edge.1)
    }
}

/// Directed graph, used for detecting cycles: for each node the nodes that
/// its edges lead to.
pub struct Graph<T> {
    adj: HashMap<T, HashSet<T>>,
}

/// Bookkeeping of a depth-first search that exists only in proofs: the
/// nodes on the current search path from its root, the order in which nodes
/// were finished, and the next free place in that order.
#[verifier::reject_recursive_types(T)]
struct Search<T> {
    path: Seq<T>,
    rank: spec_fn(T) -> int,
    clock: int,
}

/// Every two neighbours in `path` are joined by an edge.
spec fn chain<T>(edges: Set<(T, T)>, path: Seq<T>) -> bool {
    forall|i: int| 0 <= i < path.len() - 1 ==> #[trigger] step(edges, path, i)
}

/// A node is finished once it was visited and has left the search path.
spec fn finished<T>(visited: Set<T>, stack: Set<T>, v: T) -> bool {
    visited.contains(v) && !stack.contains(v)
}

/// What holds between two steps of the search: the visited nodes are nodes,
/// the marked nodes are those on the search path, the path follows edges,
/// and each finished node has only finished successors, all of them
/// finished before it.
spec fn search_inv<T>(
    graph: GraphView<T>,
    visited: Set<T>,
    stack: Set<T>,
    search: Search<T>,
) -> bool {
    &&& graph.nodes.finite()
    &&& graph.closed()
    &&& forall|edge: (T, T)| #[trigger] graph.edges.contains(edge) ==> graph.nodes.contains(edge.0)
    &&& forall|v: T| #[trigger] visited.contains(v) ==> graph.nodes.contains(v)
    &&& forall|v: T| #[trigger] stack.contains(v) ==> visited.contains(v)
    &&& forall|v: T| #[trigger] stack.contains(v) <==> search.path.contains(v)
    &&& search.path.no_duplicates()
    &&& chain(graph.edges, search.path)
    &&& forall|edge: (T, T)| #[trigger]
        graph.edges.contains(edge) && finished(visited, stack, edge.0) ==> {
            &&& finished(visited, stack, edge.1)
            &&& (search.rank)(edge.1) < (search.rank)(edge.0)
        }
    &&& forall|v: T| #[trigger] finished(visited, stack, v) ==> (search.rank)(v) < search.clock
}

/// Whether `walk` is a chain from `from` to `to` through nodes that were not
/// visited, both ends among them.
spec fn fresh_chain<T>(edges: Set<(T, T)>, visited: Set<T>, walk: Seq<T>, from: T, to: T) -> bool {
    &&& walk.len() >= 1
    &&& walk.first() == from
    &&& walk.last() == to
    &&& chain(edges, walk)
    &&& forall|i: int| 0 <= i < walk.len() ==> !visited.contains(#[trigger] walk[i])
}

/// Whether edges lead from `from` to `to` through nodes that were not
/// visited, both ends among them.
spec fn reaches<T>(edges: Set<(T, T)>, visited: Set<T>, from: T, to: T) -> bool {
    exists|walk: Seq<T>| fresh_chain(edges, visited, walk, from, to)
}

/// Whether `walk` is a chain from `node` through nodes that were not visited
/// which ends on a node of the search path or on a node that it has passed.
spec fn closing<T>(
    edges: Set<(T, T)>,
    visited: Set<T>,
    path: Seq<T>,
    walk: Seq<T>,
    node: T,
) -> bool {
    &&& walk.len() >= 1
    &&& walk.first() == node
    &&& chain(edges, walk)
    &&& forall|i: int| 0 <= i < walk.len() - 1 ==> !visited.contains(#[trigger] walk[i])
    &&& path.contains(walk.last()) || walk.drop_last().contains(walk.last())
}

/// Whether edges lead from `node`, through nodes that were not visited, back
/// to the search path or to a node that they have passed.
spec fn closes_back<T>(edges: Set<(T, T)>, visited: Set<T>, path: Seq<T>, node: T) -> bool {
    exists|walk: Seq<T>| closing(edges, visited, path, walk, node)
}

/// Marking a node that was not visited leaves fewer nodes to visit.
proof fn lemma_mark_shrinks<T>(nodes: Set<T>, visited: Set<T>, node: T)
    requires
        nodes.finite(),
        nodes.contains(node),
        !visited.contains(node),
    ensures
        nodes.difference(visited.insert(node)).len() < nodes.difference(visited).len(),
{
    let left = nodes.difference(visited);
    assert(nodes.difference(visited.insert(node)) =~= left.remove(node));
    assert(left.contains(node));
}

/// Visiting more nodes never leaves more nodes to visit.
proof fn lemma_visit_shrinks<T>(nodes: Set<T>, before: Set<T>, after: Set<T>)
    requires
        nodes.finite(),
        forall|v: T| #[trigger] before.contains(v) ==> after.contains(v),
    ensures
        nodes.difference(after).len() <= nodes.difference(before).len(),
{
    lemma_len_subset(nodes.difference(after), nodes.difference(before));
}

/// Along a chain of finished nodes the finishing order strictly descends.
proof fn lemma_rank_descends<T>(
    graph: GraphView<T>,
    visited: Set<T>,
    stack: Set<T>,
    search: Search<T>,
    path: Seq<T>,
    j: int,
)
    requires
        search_inv(graph, visited, stack, search),
        chain(graph.edges, path),
        0 <= j < path.len(),
        finished(visited, stack, path[0]),
    ensures
        finished(visited, stack, path[j]),
        j > 0 ==> (search.rank)(path[j]) < (search.rank)(path[0]),
    decreases j,
{
    if j > 0 {
        lemma_rank_descends(graph, visited, stack, search, path, j - 1);
        assert(step(graph.edges, path, j - 1));
        assert(graph.edges.contains((path[j - 1], path[j])));
    }
}

/// Once every node is finished there is no cycle.
proof fn lemma_finished_has_no_cycle<T>(
    graph: GraphView<T>,
    visited: Set<T>,
    stack: Set<T>,
    search: Search<T>,
)
    requires
        search_inv(graph, visited, stack, search),
        forall|v: T| graph.nodes.contains(v) ==> finished(visited, stack, v),
    ensures
        !has_cycle(graph.edges),
{
    if has_cycle(graph.edges) {
        let walk = choose|walk: Seq<T>| is_cycle(graph.edges, walk);
        assert(step(graph.edges, walk, 0));
        assert(graph.edges.contains((walk[0], walk[1])));
        lemma_rank_descends(graph, visited, stack, search, walk, walk.len() - 1);
    }
}

/// An edge from the end of the search path back into it closes a cycle.
proof fn lemma_back_edge_cycle<T>(edges: Set<(T, T)>, path: Seq<T>, node: T)
    requires
        chain(edges, path),
        path.contains(node),
        edges.contains((path.last(), node)),
    ensures
        has_cycle(edges),
{
    let i = choose|i: int| 0 <= i < path.len() && path[i] == node;
    let round = path.subrange(i, path.len() as int).push(node);
    assert forall|j: int| 0 <= j < round.len() - 1 implies #[trigger] step(edges, round, j) by {
        if j < round.len() - 2 {
            assert(step(edges, path, i + j));
        }
    }
    assert(is_cycle(edges, round));
}

/// What is reached from a successor of a node is reached from the node.
proof fn lemma_reach_through<T>(
    edges: Set<(T, T)>,
    entered: Set<T>,
    seen: Set<T>,
    node: T,
    child: T,
    to: T,
)
    requires
        forall|v: T| #[trigger] entered.contains(v) ==> seen.contains(v),
        !entered.contains(node),
        edges.contains((node, child)),
        reaches(edges, seen, child, to),
    ensures
        reaches(edges, entered, node, to),
{
    let rest = choose|rest: Seq<T>| fresh_chain(edges, seen, rest, child, to);
    let walk = seq![node] + rest;
    assert forall|i: int| 0 <= i < walk.len() - 1 implies #[trigger] step(edges, walk, i) by {
        if i > 0 {
            assert(step(edges, rest, i - 1));
        }
    }
    assert forall|i: int| 0 <= i < walk.len() implies !entered.contains(#[trigger] walk[i]) by {
        if i > 0 {
            assert(!seen.contains(rest[i - 1]));
        }
    }
    assert(fresh_chain(edges, entered, walk, node, to));
}

/// What leads back from a successor of a node leads back from the node.
proof fn lemma_close_through<T>(
    edges: Set<(T, T)>,
    entered: Set<T>,
    seen: Set<T>,
    path: Seq<T>,
    node: T,
    child: T,
)
    requires
        forall|v: T| #[trigger] entered.contains(v) ==> seen.contains(v),
        !entered.contains(node),
        edges.contains((node, child)),
        closes_back(edges, seen, path.push(node), child),
    ensures
        closes_back(edges, entered, path, node),
{
    let rest = choose|rest: Seq<T>| closing(edges, seen, path.push(node), rest, child);
    let walk = seq![node] + rest;
    assert forall|i: int| 0 <= i < walk.len() - 1 implies #[trigger] step(edges, walk, i) by {
        if i > 0 {
            assert(step(edges, rest, i - 1));
        }
    }
    assert forall|i: int| 0 <= i < walk.len() - 1 implies !entered.contains(
        #[trigger] walk[i],
    ) by {
        if i > 0 {
            assert(!seen.contains(rest[i - 1]));
        }
    }
    let last = rest.last();
    assert(walk.last() == last);
    if path.push(node).contains(last) {
        let j = choose|j: int| 0 <= j < path.push(node).len() && path.push(node)[j] == last;
        if j < path.len() {
            assert(path[j] == last);
        } else {
            assert(walk.drop_last()[0] == last);
        }
    } else {
        let j = choose|j: int| 0 <= j < rest.drop_last().len() && rest.drop_last()[j] == last;
        assert(walk.drop_last()[j + 1] == last);
    }
    assert(closing(edges, entered, path, walk, node));
}

/// From a finished node no edges lead back to the search path or to a node
/// that they have passed.
proof fn lemma_finished_never_closes<T>(
    graph: GraphView<T>,
    visited: Set<T>,
    stack: Set<T>,
    search: Search<T>,
    marks: Set<T>,
    node: T,
)
    requires
        search_inv(graph, visited, stack, search),
        finished(visited, stack, node),
    ensures
        !closes_back(graph.edges, marks, search.path, node),
{
    if closes_back(graph.edges, marks, search.path, node) {
        let walk = choose|walk: Seq<T>| closing(graph.edges, marks, search.path, walk, node);
        let last = walk.len() - 1;
        lemma_rank_descends(graph, visited, stack, search, walk, last);
        if search.path.contains(walk.last()) {
            assert(stack.contains(walk.last()));
        } else {
            let passed = walk.drop_last();
            let j = choose|j: int| 0 <= j < passed.len() && passed[j] == walk[last];
            let round = walk.subrange(j, walk.len() as int);
            assert forall|i: int| 0 <= i < round.len() - 1 implies #[trigger] step(
                graph.edges,
                round,
                i,
            ) by {
                assert(step(graph.edges, walk, j + i));
            }
            lemma_rank_descends(graph, visited, stack, search, walk, j);
            lemma_rank_descends(graph, visited, stack, search, round, round.len() - 1);
        }
    }
}

/// Once a node was visited and its successors are finished, whatever edges
/// lead to from the node was visited.
proof fn lemma_chain_visited<T>(
    graph: GraphView<T>,
    visited: Set<T>,
    stack: Set<T>,
    search: Search<T>,
    node: T,
    walk: Seq<T>,
    i: int,
)
    requires
        search_inv(graph, visited, stack, search),
        visited.contains(node),
        forall|to: T| #[trigger] graph.edges.contains((node, to)) ==> finished(visited, stack, to),
        chain(graph.edges, walk),
        walk.len() >= 1,
        walk.first() == node,
        0 <= i < walk.len(),
    ensures
        visited.contains(walk[i]),
{
    if i > 0 {
        let rest = walk.subrange(1, walk.len() as int);
        assert(step(graph.edges, walk, 0));
        assert(graph.edges.contains((node, walk[1])));
        assert forall|j: int| 0 <= j < rest.len() - 1 implies #[trigger] step(
            graph.edges,
            rest,
            j,
        ) by {
            assert(step(graph.edges, walk, j + 1));
        }
        lemma_rank_descends(graph, visited, stack, search, rest, i - 1);
    }
}

impl<T> View for Graph<T> {
    type V = GraphView<T>;

    closed spec fn view(&self) -> GraphView<T> {
        GraphView {
            nodes: self.adj@.dom(),
            edges: Set::new(
                |edge: (T, T)|
                    self.adj@.contains_key(edge.0) && self.adj@[edge.0]@.contains(edge.1),
            ),
        }
    }
}

impl<T: Copy + Eq + Hash> Graph<T> {
    /// Nodes hash as they compare.
    pub closed spec fn wf(&self) -> bool {
        obeys_key_model::<T>()
    }

    /// Creates a graph with the given nodes and no edges. A node given more
    /// than once is taken once.
    pub fn new(nodes: Vec<T>) -> (graph: Self)
        requires
            obeys_key_model::<T>(),
        ensures
            graph.wf(),
            graph@.nodes == nodes@.to_set(),
            graph@.edges == Set::<(T, T)>::empty(),
    {
        broadcast use vstd::std_specs::hash::group_hash_axioms;

        let mut adj: HashMap<T, HashSet<T>> = HashMap::new();
        let mut i: usize = 0;
        while i < nodes.len()
            invariant
                obeys_key_model::<T>(),
                i <= nodes@.len(),
                adj@.dom() == nodes@.take(i as int).to_set(),
                forall|node: T, to: T|
                    adj@.contains_key(node) ==> !(#[trigger] adj@[node]@.contains(to)),
            decreases nodes@.len() - i,
        {
            let node = nodes[i];
            proof {
                assert(nodes@.take(i + 1) =~= nodes@.take(i as int).push(node));
                lemma_push_to_set(nodes@.take(i as int), node);
            }
            if !adj.contains_key(&node) {
                adj.insert(node, HashSet::new());
            } else {
                assert(adj@.dom().insert(node) =~= adj@.dom());
            }
            i += 1;
        }
        let graph = Graph { adj };
        proof {
            assert(nodes@.take(nodes@.len() as int) =~= nodes@);
            assert(graph@.edges =~= Set::<(T, T)>::empty());
        }
        graph
    }

    /// Adds the edge from `src` to `dest`, whether `dest` is a node or not.
    /// Adding an edge again changes nothing.
    pub fn add_edge(&mut self, src: T, dest: T)
        requires
            old(self).wf(),
            old(self)@.nodes.contains(src),
        ensures
            final(self).wf(),
            final(self)@.nodes == old(self)@.nodes,
            final(self)@.edges == old(self)@.edges.insert((src, dest)),
    {
        broadcast use vstd::std_specs::hash::group_hash_axioms;

        let mut edges = self.adj.remove(&src).unwrap();
        edges.insert(dest);
        self.adj.insert(src, edges);
        proof {
            assert(self@.nodes =~= old(self)@.nodes);
            assert(self@.edges =~= old(self)@.edges.insert((src, dest)));
        }
    }

    /// Checks whether the graph has a cycle. Every edge has to lead to a
    /// node.
    pub fn is_cyclical(&self) -> (cyclical: bool)
        requires
            self.wf(),
            self@.closed(),
        ensures
            cyclical == has_cycle(self@.edges),
    {
        broadcast use vstd::std_specs::hash::group_hash_axioms;

        let nodes = map_keys(&self.adj);
        let mut visited: HashSet<T> = HashSet::new();
        let mut stack: HashSet<T> = HashSet::new();
        let ghost mut search = Search { path: Seq::empty(), rank: |v: T| 0int, clock: 0 };
        let mut i: usize = 0;
        while i < nodes.len()
            invariant
                self.wf(),
                self@.closed(),
                nodes@.to_set() == self@.nodes,
                i <= nodes@.len(),
                search_inv(self@, visited@, stack@, search),
                search.path.len() == 0,
                forall|j: int| 0 <= j < i ==> visited@.contains(#[trigger] nodes@[j]),
            decreases nodes@.len() - i,
        {
            let node = nodes[i];
            proof {
                assert(nodes@.to_set().contains(node));
            }
            let ghost seen = visited@;
            let (found, Ghost(next)) = self.is_cyclical_util(
                node,
                &mut visited,
                &mut stack,
                Ghost(search),
            );
            if found {
                return true;
            }
            proof {
                search = next;
                assert forall|j: int| 0 <= j < i + 1 implies visited@.contains(
                    #[trigger] nodes@[j],
                ) by {
                    if j < i {
                        assert(seen.contains(nodes@[j]));
                    }
                }
            }
            i += 1;
        }
        proof {
            assert forall|v: T| self@.nodes.contains(v) implies finished(visited@, stack@, v) by {
                assert(nodes@.to_set().contains(v));
                let j = choose|j: int| 0 <= j < nodes@.len() && nodes@[j] == v;
                assert(visited@.contains(nodes@[j]));
                if stack@.contains(v) {
                    assert(search.path.contains(v));
                }
            }
            lemma_finished_has_no_cycle(self@, visited@, stack@, search);
        }
        false
    }

    /// Searches depth-first from `node` for an edge back into the search
    /// path.
    ///
    /// `visited` holds the nodes that the search has entered, `stack` those
    /// that are on the search path. The search finds an edge back exactly if
    /// edges lead from `node`, through nodes that were not visited, to the
    /// search path or to a node that they have passed. Where it finds none,
    /// it leaves the search path as it was and has visited, beyond what was
    /// visited, exactly what edges lead to from `node` through nodes that
    /// were not visited.
    fn is_cyclical_util(
        &self,
        node: T,
        visited: &mut HashSet<T>,
        stack: &mut HashSet<T>,
        Ghost(search): Ghost<Search<T>>,
    ) -> (result: (bool, Ghost<Search<T>>))
        requires
            self.wf(),
            self@.closed(),
            self@.nodes.contains(node),
            search_inv(self@, old(visited)@, old(stack)@, search),
            search.path.len() > 0 ==> self@.edges.contains((search.path.last(), node)),
        ensures
            result.0 <==> closes_back(self@.edges, old(visited)@, search.path, node),
            result.0 ==> has_cycle(self@.edges),
            !result.0 ==> {
                &&& search_inv(self@, final(visited)@, final(stack)@, result.1@)
                &&& result.1@.path == search.path
                &&& final(stack)@ == old(stack)@
                &&& final(visited)@.contains(node)
                &&& !final(stack)@.contains(node)
                &&& forall|v: T| #[trigger]
                    final(visited)@.contains(v) <==> old(visited)@.contains(v) || reaches(
                        self@.edges,
                        old(visited)@,
                        node,
                        v,
                    )
            },
        decreases self@.nodes.difference(old(visited)@).len(),
    {
        broadcast use vstd::std_specs::hash::group_hash_axioms;

        let ghost graph = self@;
        let ghost edges = self@.edges;
        let ghost entered = visited@;
        let ghost marks = stack@;
        if stack.contains(&node) {
            proof {
                assert(search.path.contains(node));
                lemma_back_edge_cycle(edges, search.path, node);
                assert(closing(edges, entered, search.path, seq![node], node));
            }
            return (true, Ghost(search));
        }
        if visited.contains(&node) {
            proof {
                lemma_finished_never_closes(graph, entered, marks, search, entered, node);
                assert forall|v: T| !reaches(edges, entered, node, v) by {
                    if reaches(edges, entered, node, v) {
                        let walk = choose|walk: Seq<T>| fresh_chain(edges, entered, walk, node, v);
                        assert(!entered.contains(walk[0]));
                    }
                }
            }
            return (false, Ghost(search));
        }
        visited.insert(node);
        stack.insert(node);
        let ghost mut inner = Search {
            path: search.path.push(node),
            rank: search.rank,
            clock: search.clock,
        };
        proof {
            lemma_mark_shrinks(graph.nodes, entered, node);
            assert(!search.path.contains(node)) by {
                if search.path.contains(node) {
                    assert(marks.contains(node));
                }
            }
            assert forall|v: T| #[trigger] stack@.contains(v) <==> inner.path.contains(v) by {
                if search.path.contains(v) {
                    let i = choose|i: int| 0 <= i < search.path.len() && search.path[i] == v;
                    assert(inner.path[i] == v);
                    assert(marks.contains(v));
                }
                if v == node {
                    assert(inner.path[search.path.len() as int] == v);
                }
                if inner.path.contains(v) {
                    let i = choose|i: int| 0 <= i < inner.path.len() && inner.path[i] == v;
                    if i < search.path.len() {
                        assert(search.path[i] == v);
                        assert(marks.contains(v));
                    }
                }
            }
            assert forall|i: int| 0 <= i < inner.path.len() - 1 implies #[trigger] step(
                edges,
                inner.path,
                i,
            ) by {
                if i < search.path.len() - 1 {
                    assert(step(edges, search.path, i));
                }
            }
            assert forall|edge: (T, T)| #[trigger]
                edges.contains(edge) && finished(visited@, stack@, edge.0) implies {
                &&& finished(visited@, stack@, edge.1)
                &&& (inner.rank)(edge.1) < (inner.rank)(edge.0)
            } by {
                assert(finished(entered, marks, edge.0));
                assert(finished(entered, marks, edge.1));
            }
            assert forall|v: T| #[trigger] finished(visited@, stack@, v) implies (inner.rank)(v)
                < inner.clock by {
                assert(finished(entered, marks, v));
            }
            assert(fresh_chain(edges, entered, seq![node], node, node));
        }
        let children = set_items(self.adj.get(&node).unwrap());
        let mut k: usize = 0;
        while k < children.len()
            invariant
                self.wf(),
                self@.closed(),
                graph == self@,
                edges == graph.edges,
                graph.nodes.contains(node),
                self.adj@.contains_key(node),
                children@.to_set() == self.adj@[node]@,
                k <= children@.len(),
                search_inv(graph, visited@, stack@, inner),
                inner.path == search.path.push(node),
                stack@ == marks.insert(node),
                !marks.contains(node),
                visited@.contains(node),
                forall|v: T| #[trigger] entered.contains(v) ==> visited@.contains(v),
                forall|v: T| #[trigger]
                    visited@.contains(v) ==> entered.contains(v) || reaches(
                        edges,
                        entered,
                        node,
                        v,
                    ),
                !entered.contains(node),
                entered == old(visited)@,
                graph.nodes.difference(visited@).len() < graph.nodes.difference(entered).len(),
                forall|j: int| 0 <= j < k ==> finished(visited@, stack@, #[trigger] children@[j]),
            decreases children@.len() - k,
        {
            let child = children[k];
            let ghost seen = visited@;
            proof {
                assert(children@.to_set().contains(child));
                assert(edges.contains((node, child)));
                assert(inner.path.last() == node);
            }
            let (found, Ghost(next)) = self.is_cyclical_util(child, visited, stack, Ghost(inner));
            if found {
                proof {
                    lemma_close_through(edges, entered, seen, search.path, node, child);
                }
                return (true, Ghost(next));
            }
            proof {
                inner = next;
                lemma_visit_shrinks(graph.nodes, seen, visited@);
                assert forall|v: T| #[trigger] visited@.contains(v) implies entered.contains(v)
                    || reaches(edges, entered, node, v) by {
                    if !seen.contains(v) {
                        lemma_reach_through(edges, entered, seen, node, child, v);
                    }
                }
                assert forall|j: int| 0 <= j < k + 1 implies finished(
                    visited@,
                    stack@,
                    #[trigger] children@[j],
                ) by {
                    if j < k {
                        assert(finished(seen, stack@, children@[j]));
                    }
                }
            }
            k += 1;
        }
        let ghost above = stack@;
        stack.remove(&node);
        let ghost done = Search {
            path: search.path,
            rank: |v: T|
                if v == node {
                    inner.clock
                } else {
                    (inner.rank)(v)
                },
            clock: inner.clock + 1,
        };
        proof {
            assert(stack@ =~= marks);
            assert forall|to: T| #[trigger] edges.contains((node, to)) implies finished(
                visited@,
                above,
                to,
            ) by {
                assert(children@.to_set().contains(to));
                let j = choose|j: int| 0 <= j < children@.len() && children@[j] == to;
                assert(finished(visited@, above, children@[j]));
            }
            assert forall|edge: (T, T)| #[trigger]
                edges.contains(edge) && finished(visited@, stack@, edge.0) implies {
                &&& finished(visited@, stack@, edge.1)
                &&& (done.rank)(edge.1) < (done.rank)(edge.0)
            } by {
                if edge.0 == node {
                    assert(edges.contains((node, edge.1)));
                    assert(finished(visited@, above, edge.1));
                } else {
                    assert(finished(visited@, above, edge.0));
                    assert(finished(visited@, above, edge.1));
                }
            }
            assert forall|v: T| #[trigger] finished(visited@, stack@, v) implies (done.rank)(v)
                < done.clock by {
                if v != node {
                    assert(finished(visited@, above, v));
                }
            }
            assert forall|v: T| #[trigger] stack@.contains(v) <==> done.path.contains(v) by {
                if search.path.contains(v) {
                    assert(marks.contains(v));
                }
            }
            assert forall|v: T| reaches(edges, entered, node, v) implies #[trigger]
                visited@.contains(v) by {
                let walk = choose|walk: Seq<T>| fresh_chain(edges, entered, walk, node, v);
                lemma_chain_visited(graph, visited@, above, inner, node, walk, walk.len() - 1);
            }
            lemma_finished_never_closes(graph, visited@, stack@, done, entered, node);
        }
        (false, Ghost(done))
    }
}

} // verus!
