//! The node registry and edge accumulator of a PageRank engine.
use std::collections::HashMap;
use std::hash::Hash;
use vstd::prelude::*;
use vstd::std_specs::hash::obeys_key_model;

use crate::model::{lemma_intern_wf, lemma_with_edge_wf, LinkModel};

verus! {

/// Damping factor, in percent, of a new graph.
pub const DEFAULT_DAMPING: u8 = 85;

/// One interned node.
struct Node<T> {
    /// The identifier the node was interned under (a clone of it).
    node: T,
    /// Index of the source of every edge that ends here, in insertion order.
    in_edges: Vec<usize>,
    /// Number of edges that start here.
    out_edges: usize,
}

/// The link graph and configuration of a PageRank computation.
///
/// Nodes are identified by values of `T` and interned into dense indices
/// `0..len()`, in order of first appearance. Edges are never removed.
///
/// The contracts that look identifiers up take `obeys_key_model::<T>()`:
/// that `T`'s `Hash` is deterministic and its `==` is identity, as a hash
/// map key must be.
pub struct Pagerank<T> where T: Eq + Hash + Clone {
    /// Probability, in percent, that the random surfer follows a link.
    damping: u8,
    /// The nodes, by index.
    nodes: Vec<Node<T>>,
    /// Total number of edges.
    edges: usize,
    /// Index of each interned identifier.
    node_positions: HashMap<T, usize>,
    /// Memoized number of nodes with at least one incoming edge.
    nodes_with_in_edges: Option<usize>,
    /// The identifier each node was interned under.
    ids: Ghost<Seq<T>>,
}

impl<T> View for Pagerank<T> where T: Eq + Hash + Clone {
    type V = LinkModel<T>;

    closed spec fn view(&self) -> LinkModel<T> {
        LinkModel {
            ids: self.ids@,
            index: self.node_positions@,
            incoming: self.nodes@.map_values(|n: Node<T>| n.in_edges@),
            out_degree: self.nodes@.map_values(|n: Node<T>| n.out_edges as nat),
            edges: self.edges as nat,
            damping: self.damping as nat,
        }
    }
}

impl<T> Pagerank<T> where T: Eq + Hash + Clone {
    /// Internal invariant: the model is well formed, damping is a
    /// percentage below 100, counts fit in `usize`, every stored identifier
    /// is a clone of the key it is interned under, and the memoized count,
    /// when present, is exact.
    pub closed spec fn wf(&self) -> bool {
        &&& self@.wf()
        &&& self.damping < 100
        &&& forall|i: int| 0 <= i < self.nodes@.len() ==> #[trigger] self.nodes@[i].out_edges <= self.edges
        &&& forall|i: int| 0 <= i < self.nodes@.len() ==> cloned(self.ids@[i], #[trigger] self.nodes@[i].node)
        &&& match self.nodes_with_in_edges {
            Some(n) => n == self@.nodes_with_incoming(),
            None => true,
        }
    }

    /// Creates an empty graph with a damping factor of 85 percent.
    pub fn new() -> (r: Pagerank<T>)
        ensures
            r.wf(),
            r@ == LinkModel::<T>::empty(DEFAULT_DAMPING as nat),
    {
        let r = Pagerank::<T> {
            damping: DEFAULT_DAMPING,
            nodes: Vec::new(),
            edges: 0,
            node_positions: HashMap::<T, usize>::new(),
            nodes_with_in_edges: None,
            ids: Ghost(Seq::empty()),
        };
        assert(r@.incoming =~= Seq::empty());
        assert(r@.out_degree =~= Seq::empty());
        r
    }

    /// Sets the damping factor, in percent. A value of 100 or more is
    /// rejected and the previous factor is kept.
    pub fn set_damping_factor(&mut self, factor: u8) -> (r: Result<(), String>)
        requires
            old(self).wf(),
        ensures
            final(self).wf(),
            r.is_err() <==> factor >= 100,
            r.is_ok() ==> final(self)@ == (LinkModel { damping: factor as nat, ..old(self)@ }),
            r.is_err() ==> final(self)@ == old(self)@,
    {
        if factor >= 100 {
            return Err("damping factor needs to be below 100".to_owned());
        }
        self.damping = factor;
        Ok(())
    }

    /// Returns the index of `node`, interning it first if it is new. A new
    /// node gets the next free index, no edges, and clears the memoized
    /// count of nodes with incoming edges.
    pub fn get_or_create_node(&mut self, node: T) -> (r: usize)
        requires
            old(self).wf(),
            obeys_key_model::<T>(),
            old(self)@.index.contains_key(node) || old(self)@.size() < usize::MAX,
        ensures
            final(self).wf(),
            final(self)@ == old(self)@.intern(node),
            final(self)@.index.contains_key(node),
            r == final(self)@.index[node],
            (r as int) < final(self)@.size(),
    {
        proof {
            lemma_intern_wf(self@, node);
        }
        match self.node_positions.get(&node) {
            Some(value) => *value,
            None => {
                let id = self.nodes.len();
                let copy = node.clone();
                self.nodes.push(Node { node: copy, in_edges: Vec::new(), out_edges: 0 });
                self.node_positions.insert(node, id);
                self.nodes_with_in_edges = None;
                self.ids = Ghost(self.ids@.push(node));
                assert(self@.incoming =~= old(self)@.intern(node).incoming);
                assert(self@.out_degree =~= old(self)@.intern(node).out_degree);
                assert forall|i: int| 0 <= i < self.nodes@.len() implies #[trigger] self.nodes@[i].out_edges <= self.edges by {
                    if i < id {
                        assert(self.nodes@[i] == old(self).nodes@[i]);
                    }
                }
                assert forall|i: int| 0 <= i < self.nodes@.len() implies cloned(
                    self.ids@[i],
                    #[trigger] self.nodes@[i].node,
                ) by {
                    if i < id {
                        assert(self.nodes@[i] == old(self).nodes@[i]);
                    }
                }
                id
            }
        }
    }

    /// Records the edge `source -> target`, interning either endpoint that
    /// is new. Self-loops and repeated edges are recorded like any other.
    pub fn add_edge(&mut self, source: T, target: T)
        requires
            old(self).wf(),
            obeys_key_model::<T>(),
            old(self)@.size() + 2 <= usize::MAX,
            old(self)@.edges < usize::MAX,
        ensures
            final(self).wf(),
            final(self)@ == old(self)@.with_edge(source, target),
    {
        proof {
            lemma_intern_wf(self@, source);
            lemma_intern_wf(self@.intern(source), target);
            lemma_with_edge_wf(self@, source, target);
        }
        let ghost pre = self@;
        let source_id = self.get_or_create_node(source);
        let target_id = self.get_or_create_node(target);
        let ghost mid = self@;
        assert(self.nodes@[source_id as int].out_edges <= self.edges);
        self.nodes[source_id].out_edges += 1;
        self.nodes[target_id].in_edges.push(source_id);
        self.edges += 1;
        self.nodes_with_in_edges = None;
        proof {
            let want = pre.with_edge(source, target);
            assert(mid == pre.intern(source).intern(target));
            assert(self@.incoming =~= want.incoming);
            assert(self@.out_degree =~= want.out_degree);
            assert(self@.index == want.index);
        }
    }

    /// Returns the index of `node`, or `None` if it was never interned.
    /// Never interns.
    pub fn find_node(&self, node: &T) -> (r: Option<usize>)
        requires
            self.wf(),
            obeys_key_model::<T>(),
        ensures
            r == if self@.index.contains_key(*node) {
                Some(self@.index[*node])
            } else {
                None::<usize>
            },
            r matches Some(i) ==> (i as int) < self@.size(),
    {
        match self.node_positions.get(node) {
            Some(id) => Some(*id),
            None => None,
        }
    }

    /// Returns the number of incoming edges of `node`, or `None` if it was
    /// never interned. Never interns.
    pub fn get_in_edges(&self, node: T) -> (r: Option<usize>)
        requires
            self.wf(),
            obeys_key_model::<T>(),
        ensures
            r == if self@.index.contains_key(node) {
                Some(self@.incoming[self@.index[node] as int].len() as usize)
            } else {
                None::<usize>
            },
    {
        match self.node_positions.get(&node) {
            Some(id) => Some(self.nodes[*id].in_edges.len()),
            None => None,
        }
    }

    /// Returns the number of outgoing edges of `node`, or `None` if it was
    /// never interned. Never interns.
    pub fn get_out_edges(&self, node: T) -> (r: Option<usize>)
        requires
            self.wf(),
            obeys_key_model::<T>(),
        ensures
            r == if self@.index.contains_key(node) {
                Some(self@.out_degree[self@.index[node] as int] as usize)
            } else {
                None::<usize>
            },
    {
        match self.node_positions.get(&node) {
            Some(id) => Some(self.nodes[*id].out_edges),
            None => None,
        }
    }

    /// Returns the number of nodes with at least one incoming edge,
    /// computing it once and remembering it until the next edge is added.
    pub fn len_nodes_with_in_edges(&mut self) -> (r: usize)
        requires
            old(self).wf(),
        ensures
            final(self).wf(),
            final(self)@ == old(self)@,
            r == old(self)@.nodes_with_incoming(),
    {
        if let Some(n) = self.nodes_with_in_edges {
            return n;
        }
        let mut total: usize = 0;
        let mut i: usize = 0;
        while i < self.nodes.len()
            invariant
                self.wf(),
                self@ == old(self)@,
                i <= self.nodes@.len(),
                total <= i,
                total == crate::model::count_nonempty(self@.incoming.take(i as int)),
            decreases self.nodes@.len() - i,
        {
            assert(self@.incoming.take(i + 1).drop_last() =~= self@.incoming.take(i as int));
            if self.nodes[i].in_edges.len() > 0 {
                total += 1;
            }
            i += 1;
        }
        assert(self@.incoming.take(i as int) =~= self@.incoming);
        self.nodes_with_in_edges = Some(total);
        total
    }

    /// The identifier stored for the node at `index`: the one it was
    /// interned under, or a clone of it.
    pub fn identifier(&self, index: usize) -> (r: &T)
        requires
            self.wf(),
            (index as int) < self@.size(),
        ensures
            cloned(self@.ids[index as int], *r),
    {
        &self.nodes[index].node
    }

    /// The sources of the incoming edges of the node at `index`, in
    /// insertion order; each names a node with an out-degree of at least one.
    pub fn incoming(&self, index: usize) -> (r: &Vec<usize>)
        requires
            self.wf(),
            (index as int) < self@.size(),
        ensures
            r@ == self@.incoming[index as int],
            forall|k: int| 0 <= k < r@.len() ==> (#[trigger] r@[k] as int) < self@.size()
                && self@.out_degree[r@[k] as int] >= 1,
    {
        &self.nodes[index].in_edges
    }

    /// The number of outgoing edges of the node at `index`.
    pub fn out_degree(&self, index: usize) -> (r: usize)
        requires
            self.wf(),
            (index as int) < self@.size(),
        ensures
            r as nat == self@.out_degree[index as int],
    {
        self.nodes[index].out_edges
    }

    /// The damping factor, in percent.
    pub fn damping_factor(&self) -> (r: u8)
        requires
            self.wf(),
        ensures
            r as nat == self@.damping,
            r < 100,
    {
        self.damping
    }

    /// Returns the number of nodes in the graph.
    pub fn len(&self) -> (r: usize)
        requires
            self.wf(),
        ensures
            r == self@.size(),
    {
        self.nodes.len()
    }

    /// Returns the number of edges in the graph.
    pub fn len_node(&self) -> (r: usize)
        requires
            self.wf(),
        ensures
            r == self@.edges,
    {
        self.edges
    }

    /// Whether the graph has no nodes.
    pub fn is_empty(&self) -> (r: bool)
        requires
            self.wf(),
        ensures
            r <==> self@.size() == 0,
    {
        self.nodes.len() == 0
    }
}

impl<T> Default for Pagerank<T> where T: Eq + Hash + Clone {
    /// An empty graph, as [`Pagerank::new`].
    fn default() -> (r: Self)
        ensures
            r.wf(),
            r@ == LinkModel::<T>::empty(DEFAULT_DAMPING as nat),
    {
        Self::new()
    }
}

} // verus!
