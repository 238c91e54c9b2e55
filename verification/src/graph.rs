//! The static topology of a graph: vertex labels and index-based edges.
//!
//! A `Graph` never changes once it is built. Every edge of it names two
//! existing vertices, and there is at least one vertex.

use vstd::prelude::*;

verus! {

/// A connection between two vertices, named by their positions in the
/// vertex sequence.
#[derive(Clone, Copy, Debug, PartialEq, Eq, Structural)]
pub struct Edge {
    pub source: usize,
    pub target: usize,
}

impl Edge {
    /// Both endpoints name one of the first `n` vertices.
    pub open spec fn within(self, n: nat) -> bool {
        self.source < n && self.target < n
    }
}

/// What a graph is, as mathematics: the labels of its vertices in index
/// order, and its edges in the order they were given.
pub struct GraphView {
    pub labels: Seq<Seq<char>>,
    pub edges: Seq<Edge>,
}

impl GraphView {
    /// There is a vertex, and every edge joins two existing vertices.
    pub open spec fn wf(self) -> bool {
        &&& self.labels.len() > 0
        &&& forall|i: int| 0 <= i < self.edges.len() ==> (#[trigger] self.edges[i]).within(
            self.labels.len(),
        )
    }
}

/// Why a vertex list and an edge list do not make a graph.
#[derive(Clone, Copy, Debug, PartialEq, Eq, Structural)]
pub enum GraphError {
    /// The vertex list is empty.
    NoVertices,
    /// The edge at `index` is the first with an endpoint that names no
    /// vertex.
    EdgeOutOfRange { index: usize },
}

/// Vertex labels and edges, fixed at construction.
#[derive(Debug)]
pub struct Graph {
    labels: Vec<String>,
    edges: Vec<Edge>,
}

impl View for Graph {
    type V = GraphView;

    closed spec fn view(&self) -> GraphView {
        GraphView { labels: self.labels.deep_view(), edges: self.edges@ }
    }
}

impl Clone for Graph {
    /// A second graph with the same labels and edges.
    fn clone(&self) -> (g: Graph)
        ensures
            g@ == self@,
    {
        proof {
            use_type_invariant(self);
        }
        let labels = self.labels.clone();
        let edges = self.edges.clone();
        assert(labels.deep_view() =~= self.labels.deep_view());
        assert(edges@ =~= self.edges@);
        Graph { labels, edges }
    }
}

/// The position of the first of `labels` that reads `name`.
pub fn position(labels: &Vec<String>, name: &str) -> (r: Option<usize>)
    ensures
        match r {
            Some(v) => labels.deep_view().index_of_first(name@) == Some(v as int),
            None => labels.deep_view().index_of_first(name@) is None,
        },
{
    let needle: String = name.to_owned();
    let n: usize = labels.len();
    let mut i: usize = 0;
    while i < n && labels[i] != needle
        invariant
            i <= n,
            n == labels.len(),
            needle@ == name@,
            forall|j: int| 0 <= j < i ==> #[trigger] labels.deep_view()[j] != name@,
        decreases n - i,
    {
        i += 1;
    }
    proof {
        let all = labels.deep_view();
        all.index_of_first_ensures(name@);
        if i < n {
            assert(all[i as int] == name@);
            assert(all.contains(name@));
        } else {
            assert forall|j: int| 0 <= j < all.len() implies all[j] != name@ by {
                assert(all[j] == labels.deep_view()[j]);
            }
        }
    }
    if i < n {
        Some(i)
    } else {
        None
    }
}

impl Graph {
    #[verifier::type_invariant]
    spec fn inv(&self) -> bool {
        self@.wf()
    }

    /// Builds a graph, after checking that it has a vertex and that every
    /// edge stays within the vertices.
    pub fn new(labels: Vec<String>, edges: Vec<Edge>) -> (r: Result<Graph, GraphError>)
        ensures
            match r {
                Ok(g) => g@ == (GraphView { labels: labels.deep_view(), edges: edges@ })
                    && g@.wf(),
                Err(GraphError::NoVertices) => labels.len() == 0,
                Err(GraphError::EdgeOutOfRange { index }) => {
                    &&& labels.len() > 0
                    &&& index < edges.len()
                    &&& !edges[index as int].within(labels.len() as nat)
                    &&& forall|j: int|
                        0 <= j < index ==> (#[trigger] edges[j]).within(labels.len() as nat)
                },
            },
    {
        let n: usize = labels.len();
        if n == 0 {
            return Err(GraphError::NoVertices);
        }
        let m: usize = edges.len();
        let mut i: usize = 0;
        while i < m
            invariant
                i <= m,
                m == edges.len(),
                0 < n == labels.len(),
                forall|j: int| 0 <= j < i ==> (#[trigger] edges[j]).within(n as nat),
            decreases m - i,
        {
            if edges[i].source >= n || edges[i].target >= n {
                return Err(GraphError::EdgeOutOfRange { index: i });
            }
            i += 1;
        }
        Ok(Graph { labels, edges })
    }

    /// Builds a graph from parts already known to fit together.
    pub(crate) fn from_parts(labels: Vec<String>, edges: Vec<Edge>) -> (g: Graph)
        requires
            (GraphView { labels: labels.deep_view(), edges: edges@ }).wf(),
        ensures
            g@ == (GraphView { labels: labels.deep_view(), edges: edges@ }),
            g@.wf(),
    {
        Graph { labels, edges }
    }

    /// How many vertices the graph has; never zero.
    pub fn vertex_count(&self) -> (n: usize)
        ensures
            n == self@.labels.len(),
            n > 0,
    {
        proof {
            use_type_invariant(self);
        }
        self.labels.len()
    }

    /// How many edges the graph has.
    pub fn edge_count(&self) -> (n: usize)
        ensures
            n == self@.edges.len(),
    {
        self.edges.len()
    }

    /// The label of vertex `v`.
    pub fn label(&self, v: usize) -> (s: &str)
        requires
            v < self@.labels.len(),
        ensures
            s@ == self@.labels[v as int],
    {
        self.labels[v].as_str()
    }

    /// The edge at position `i`; both its endpoints are vertices.
    pub fn edge(&self, i: usize) -> (e: Edge)
        requires
            i < self@.edges.len(),
        ensures
            e == self@.edges[i as int],
            e.within(self@.labels.len()),
    {
        proof {
            use_type_invariant(self);
        }
        self.edges[i]
    }

    /// The first vertex labelled `name`, if any vertex is.
    pub fn find(&self, name: &str) -> (r: Option<usize>)
        ensures
            match r {
                Some(v) => self@.labels.index_of_first(name@) == Some(v as int),
                None => self@.labels.index_of_first(name@) is None,
            },
    {
        position(&self.labels, name)
    }
}

} // verus!
