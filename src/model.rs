//! The mathematical model of a link graph, and the laws that hold of it.
use vstd::prelude::*;

verus! {

/// Abstract state of a link graph.
///
/// `ids[i]` is the identifier interned as node `i`, and `index` maps every
/// interned identifier to its dense node index;
/// `incoming[j]` lists, in insertion order, the source index of every edge
/// whose target is `j`; `out_degree[i]` counts the edges whose source is
/// `i`; `edges` counts all edges; `damping` is the damping factor in percent.
#[verifier::reject_recursive_types(T)]
pub struct LinkModel<T> {
    pub ids: Seq<T>,
    pub index: Map<T, usize>,
    pub incoming: Seq<Seq<usize>>,
    pub out_degree: Seq<nat>,
    pub edges: nat,
    pub damping: nat,
}

impl<T> LinkModel<T> {
    /// A graph without nodes or edges.
    pub open spec fn empty(damping: nat) -> Self {
        LinkModel {
            ids: Seq::empty(),
            index: Map::empty(),
            incoming: Seq::empty(),
            out_degree: Seq::empty(),
            edges: 0,
            damping,
        }
    }

    /// Number of nodes.
    pub open spec fn size(self) -> nat {
        self.incoming.len()
    }

    /// The graph after interning `x`: unchanged if `x` is known, otherwise
    /// one more node, with no edges, at the next free index.
    pub open spec fn intern(self, x: T) -> Self {
        if self.index.contains_key(x) {
            self
        } else {
            LinkModel {
                ids: self.ids.push(x),
                index: self.index.insert(x, self.incoming.len() as usize),
                incoming: self.incoming.push(Seq::empty()),
                out_degree: self.out_degree.push(0),
                ..self
            }
        }
    }

    /// The graph after recording the edge `s -> t`.
    pub open spec fn with_edge(self, s: T, t: T) -> Self {
        let m = self.intern(s).intern(t);
        let si = m.index[s];
        let ti = m.index[t];
        LinkModel {
            out_degree: m.out_degree.update(si as int, m.out_degree[si as int] + 1),
            incoming: m.incoming.update(ti as int, m.incoming[ti as int].push(si)),
            edges: m.edges + 1,
            ..m
        }
    }

    /// The graph after recording each edge of `es`, in order.
    pub open spec fn with_edges(self, es: Seq<(T, T)>) -> Self
        decreases es.len(),
    {
        if es.len() == 0 {
            self
        } else {
            self.with_edges(es.drop_last()).with_edge(es.last().0, es.last().1)
        }
    }

    /// Well-formedness: `index` is a bijection from the interned
    /// identifiers onto `0..size()`, every incoming entry names a node,
    /// and every node named as a source has an out-degree of at least one.
    pub open spec fn wf(self) -> bool {
        &&& self.size() <= usize::MAX
        &&& self.index.dom().finite()
        &&& self.index.dom().len() == self.size()
        &&& self.out_degree.len() == self.size()
        &&& self.ids.len() == self.size()
        &&& forall|i: int|
            0 <= i < self.size() ==> self.index.contains_key(#[trigger] self.ids[i])
                && self.index[self.ids[i]] == i
        &&& forall|x: T| #[trigger]
            self.index.contains_key(x) ==> (self.index[x] as int) < self.size()
        &&& forall|x: T, y: T|
            #![trigger self.index[x], self.index[y]]
            self.index.contains_key(x) && self.index.contains_key(y) && self.index[x]
                == self.index[y] ==> x == y
        &&& forall|j: int, k: int|
            #![trigger self.incoming[j][k]]
            0 <= j < self.size() && 0 <= k < self.incoming[j].len() ==> {
                &&& (self.incoming[j][k] as int) < self.size()
                &&& self.out_degree[self.incoming[j][k] as int] >= 1
            }
    }

    /// Number of nodes that have at least one incoming edge.
    pub open spec fn nodes_with_incoming(self) -> nat {
        count_nonempty(self.incoming)
    }
}

/// Interning keeps a graph well formed, and afterwards `x` is known; the
/// indices of the identifiers known before do not change.
pub proof fn lemma_intern_wf<T>(m: LinkModel<T>, x: T)
    requires
        m.wf(),
        m.index.contains_key(x) || m.size() < usize::MAX,
    ensures
        m.intern(x).wf(),
        m.intern(x).index.contains_key(x),
        m.intern(x).index.dom() == m.index.dom().insert(x),
        m.intern(x).edges == m.edges,
        m.intern(x).damping == m.damping,
        forall|y: T| #[trigger] m.index.contains_key(y) ==> m.intern(x).index.contains_key(y)
            && m.intern(x).index[y] == m.index[y],
{
    if !m.index.contains_key(x) {
        let n = m.intern(x);
        assert(n.index.dom() =~= m.index.dom().insert(x));
        assert forall|y: T| #[trigger] n.index.contains_key(y) implies (n.index[y] as int)
            < n.size() by {
            if y != x {
                assert(m.index.contains_key(y));
            }
        }
        assert forall|y: T, z: T|
            n.index.contains_key(y) && n.index.contains_key(z) && #[trigger] n.index[y]
                == #[trigger] n.index[z] implies y == z by {
            if y != x {
                assert(m.index.contains_key(y) && n.index[y] == m.index[y]);
            }
            if z != x {
                assert(m.index.contains_key(z) && n.index[z] == m.index[z]);
            }
        }
        assert forall|j: int, k: int|
            0 <= j < n.size() && 0 <= k < n.incoming[j].len() implies {
                &&& (#[trigger] n.incoming[j][k] as int) < n.size()
                &&& n.out_degree[n.incoming[j][k] as int] >= 1
            } by {
            assert(j < m.size());
            assert(n.incoming[j] == m.incoming[j]);
        }
    }
}

/// Recording an edge keeps a graph well formed.
pub proof fn lemma_with_edge_wf<T>(m: LinkModel<T>, s: T, t: T)
    requires
        m.wf(),
        m.size() + 2 <= usize::MAX,
    ensures
        m.with_edge(s, t).wf(),
{
    lemma_intern_wf(m, s);
    lemma_intern_wf(m.intern(s), t);
    let a = m.intern(s).intern(t);
    let n = m.with_edge(s, t);
    let si = a.index[s];
    let ti = a.index[t];
    assert forall|j: int, k: int|
        0 <= j < n.size() && 0 <= k < n.incoming[j].len() implies {
            &&& (#[trigger] n.incoming[j][k] as int) < n.size()
            &&& n.out_degree[n.incoming[j][k] as int] >= 1
        } by {
        if j == ti as int && k == a.incoming[j].len() {
            assert(n.incoming[j][k] == si);
        } else {
            assert(n.incoming[j][k] == a.incoming[j][k]);
        }
    }
}

/// The graph built by recording each edge of `es`, in order, on an empty
/// graph with damping `d`.
pub open spec fn built<T>(d: nat, es: Seq<(T, T)>) -> LinkModel<T> {
    LinkModel::<T>::empty(d).with_edges(es)
}

/// An identifier that occurs in no edge is the source and the target of none.
proof fn lemma_counts_absent<T>(es: Seq<(T, T)>, x: T)
    requires
        !endpoints(es).contains(x),
    ensures
        count_sources(es, x) == 0,
        count_targets(es, x) == 0,
    decreases es.len(),
{
    if es.len() > 0 {
        lemma_counts_absent(es.drop_last(), x);
    }
}

/// Everything that a sequence of edges determines about the graph built
/// from it.
proof fn lemma_built<T>(d: nat, es: Seq<(T, T)>)
    requires
        2 * es.len() <= usize::MAX,
    ensures
        built(d, es).wf(),
        built(d, es).damping == d,
        built(d, es).edges == es.len(),
        built(d, es).size() <= 2 * es.len(),
        built(d, es).index.dom() == endpoints(es),
        forall|x: T| #[trigger] built(d, es).index.contains_key(x) ==> {
            &&& built(d, es).out_degree[built(d, es).index[x] as int] == count_sources(es, x)
            &&& built(d, es).incoming[built(d, es).index[x] as int].len() == count_targets(es, x)
        },
    decreases es.len(),
{
    let m = built(d, es);
    if es.len() == 0 {
        assert(m.index.dom() =~= Set::empty());
    } else {
        let pre = es.drop_last();
        let (s, t) = es.last();
        let p = built(d, pre);
        lemma_built(d, pre);
        assert(m == p.with_edge(s, t));
        assert(endpoints(es) == endpoints(pre).insert(s).insert(t));
        assert(p.intern(s).size() <= p.size() + 1);
        lemma_intern_wf(p, s);
        lemma_intern_wf(p.intern(s), t);
        lemma_with_edge_wf(p, s, t);
        let a = p.intern(s).intern(t);
        let si = a.index[s];
        let ti = a.index[t];
        assert forall|x: T| #[trigger] m.index.contains_key(x) implies {
            &&& m.out_degree[m.index[x] as int] == count_sources(es, x)
            &&& m.incoming[m.index[x] as int].len() == count_targets(es, x)
        } by {
            let i = a.index[x] as int;
            assert(m.index[x] == a.index[x]);
            assert(x == s <==> i == si as int);
            assert(x == t <==> i == ti as int);
            if p.index.contains_key(x) {
                assert(a.index[x] == p.index[x]);
                assert(i < p.size());
                assert(a.out_degree[i] == p.out_degree[i]);
                assert(a.incoming[i] == p.incoming[i]);
            } else {
                lemma_counts_absent(pre, x);
                assert(i >= p.size());
                assert(a.out_degree[i] == 0);
                assert(a.incoming[i].len() == 0);
            }
        }
    }
}

/// After any sequence of edges is recorded on an empty graph, the edge
/// count is the number of edges recorded, and the nodes are exactly the
/// distinct identifiers that occur as a source or a target.
pub proof fn lemma_counts_of_edges<T>(d: nat, es: Seq<(T, T)>)
    requires
        2 * es.len() <= usize::MAX,
    ensures
        built(d, es).edges == es.len(),
        built(d, es).index.dom() == endpoints(es),
        built(d, es).size() == endpoints(es).len(),
{
    lemma_built(d, es);
}

/// After any sequence of edges is recorded on an empty graph, the
/// out-degree of each node is the number of edges with it as source, and
/// its in-degree the number of edges with it as target.
pub proof fn lemma_degrees_of_edges<T>(d: nat, es: Seq<(T, T)>, x: T)
    requires
        2 * es.len() <= usize::MAX,
        endpoints(es).contains(x),
    ensures
        built(d, es).out_degree[built(d, es).index[x] as int] == count_sources(es, x),
        built(d, es).incoming[built(d, es).index[x] as int].len() == count_targets(es, x),
{
    lemma_built(d, es);
    assert(built(d, es).index.contains_key(x));
}

/// Number of non-empty sequences in `s`.
pub open spec fn count_nonempty(s: Seq<Seq<usize>>) -> nat
    decreases s.len(),
{
    if s.len() == 0 {
        0
    } else {
        count_nonempty(s.drop_last()) + if s.last().len() > 0 {
            1nat
        } else {
            0nat
        }
    }
}

/// Every identifier that occurs as a source or a target in `es`.
pub open spec fn endpoints<T>(es: Seq<(T, T)>) -> Set<T>
    decreases es.len(),
{
    if es.len() == 0 {
        Set::empty()
    } else {
        endpoints(es.drop_last()).insert(es.last().0).insert(es.last().1)
    }
}

/// Number of edges in `es` whose source is `x`.
pub open spec fn count_sources<T>(es: Seq<(T, T)>, x: T) -> nat
    decreases es.len(),
{
    if es.len() == 0 {
        0
    } else {
        count_sources(es.drop_last(), x) + if es.last().0 == x {
            1nat
        } else {
            0nat
        }
    }
}

/// Number of edges in `es` whose target is `y`.
pub open spec fn count_targets<T>(es: Seq<(T, T)>, y: T) -> nat
    decreases es.len(),
{
    if es.len() == 0 {
        0
    } else {
        count_targets(es.drop_last(), y) + if es.last().1 == y {
            1nat
        } else {
            0nat
        }
    }
}

} // verus!
