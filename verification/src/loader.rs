//! Reading a graph from the lines of its description.
//!
//! The first line holds the number of vertices. That many lines follow,
//! one label each. Every line after them holds an edge: the labels of its
//! two endpoints, apart by a space. White space around a line is ignored.

use crate::graph::{position, Edge, Graph, GraphView};
use crate::text::{count_of, parse_count, split_at_first, split_once, trim, trimmed};
use vstd::prelude::*;

verus! {

/// Why lines do not describe a graph.
#[derive(Clone, Copy, Debug, PartialEq, Eq, Structural)]
pub enum LoadError {
    /// There is no first line.
    Empty,
    /// The first line does not write a vertex count.
    BadCount,
    /// The vertex count is zero.
    NoVertices,
    /// Fewer lines follow the count than it announces.
    MissingVertex,
    /// The edge line at `line` holds no space between two names. No
    /// edge line before it has this fault.
    MalformedEdge { line: usize },
    /// Every edge line holds two names, and the one at `line` is the
    /// first with a name that is no vertex label.
    UnknownVertex { line: usize },
}

/// The labels that the `n` lines after the first declare.
pub open spec fn labels_of(lines: Seq<Seq<char>>, n: nat) -> Seq<Seq<char>> {
    Seq::new(n, |i: int| trimmed(lines[i + 1]))
}

/// The two names on an edge line: what stands before the first space of
/// the trimmed line, and all that stands after it.
pub open spec fn edge_names(line: Seq<char>) -> Option<(Seq<char>, Seq<char>)> {
    split_at_first(trimmed(line), ' ')
}

/// The edge that `line` describes: each name stands for the first vertex
/// that carries it.
pub open spec fn edge_of(labels: Seq<Seq<char>>, line: Seq<char>) -> Option<Edge> {
    match edge_names(line) {
        Some((a, b)) => match (labels.index_of_first(a), labels.index_of_first(b)) {
            (Some(s), Some(t)) => Some(Edge { source: s as usize, target: t as usize }),
            _ => None,
        },
        None => None,
    }
}

/// The first line at or after `from` that holds no two names.
pub open spec fn first_malformed(lines: Seq<Seq<char>>, from: int) -> Option<int>
    decreases lines.len() - from,
{
    if from >= lines.len() {
        None
    } else if edge_names(lines[from]) is None {
        Some(from)
    } else {
        first_malformed(lines, from + 1)
    }
}

/// The first line at or after `from` that describes no edge among
/// `labels`.
pub open spec fn first_unknown(labels: Seq<Seq<char>>, lines: Seq<Seq<char>>, from: int) -> Option<
    int,
>
    decreases lines.len() - from,
{
    if from >= lines.len() {
        None
    } else if edge_of(labels, lines[from]) is None {
        Some(from)
    } else {
        first_unknown(labels, lines, from + 1)
    }
}

/// The edges that the lines from `from` on describe, in line order.
pub open spec fn edges_of(labels: Seq<Seq<char>>, lines: Seq<Seq<char>>, from: int) -> Seq<Edge> {
    Seq::new((lines.len() - from) as nat, |i: int| edge_of(labels, lines[from + i]).unwrap())
}

/// What `lines` describe: a graph, or the first fault in them. A line
/// without two names is reported before any unknown name.
pub open spec fn parse(lines: Seq<Seq<char>>) -> Result<GraphView, LoadError> {
    if lines.len() == 0 {
        Err(LoadError::Empty)
    } else {
        match count_of(trimmed(lines[0])) {
            None => Err(LoadError::BadCount),
            Some(n) => if n == 0 {
                Err(LoadError::NoVertices)
            } else if lines.len() <= n {
                Err(LoadError::MissingVertex)
            } else {
                let labels = labels_of(lines, n as nat);
                match first_malformed(lines, n + 1) {
                    Some(i) => Err(LoadError::MalformedEdge { line: i as usize }),
                    None => match first_unknown(labels, lines, n + 1) {
                        Some(i) => Err(LoadError::UnknownVertex { line: i as usize }),
                        None => Ok(GraphView { labels, edges: edges_of(labels, lines, n + 1) }),
                    },
                }
            },
        }
    }
}

/// Where no line from `from` on fails to describe an edge, each of them
/// describes one.
proof fn lemma_all_known(labels: Seq<Seq<char>>, lines: Seq<Seq<char>>, from: int, i: int)
    requires
        0 <= from <= i < lines.len(),
        first_unknown(labels, lines, from) is None,
    ensures
        edge_of(labels, lines[i]) is Some,
    decreases i - from,
{
    if from < i {
        lemma_all_known(labels, lines, from + 1, i);
    }
}

/// A graph read from lines has the number of vertices that the first line
/// announces and one edge for each line after the labels, and every edge
/// of it joins two existing vertices.
pub proof fn lemma_parsed_shape(lines: Seq<Seq<char>>)
    ensures
        parse(lines) matches Ok(g) ==> {
            &&& g.wf()
            &&& count_of(trimmed(lines[0])) == Some(g.labels.len() as usize)
            &&& g.labels.len() + g.edges.len() + 1 == lines.len()
        },
{
    if let Ok(g) = parse(lines) {
        let n = count_of(trimmed(lines[0])).unwrap();
        assert forall|i: int| 0 <= i < g.edges.len() implies (#[trigger] g.edges[i]).within(
            g.labels.len(),
        ) by {
            lemma_all_known(g.labels, lines, n + 1, n + 1 + i);
            let (a, b) = edge_names(lines[n + 1 + i]).unwrap();
            g.labels.index_of_first_ensures(a);
            g.labels.index_of_first_ensures(b);
        }
    }
}

/// In a graph read from lines, vertex `v` carries the trimmed text of
/// line `v + 1`, and the edge read from a line joins the first vertex
/// that carries the line's first name to the first that carries its
/// second.
pub proof fn lemma_parsed_content(lines: Seq<Seq<char>>, v: int, e: int)
    ensures
        parse(lines) matches Ok(g) ==> {
            &&& 0 <= v < g.labels.len() ==> g.labels[v] == trimmed(lines[v + 1])
            &&& 0 <= e < g.edges.len() ==> {
                &&& edge_names(lines[g.labels.len() + 1 + e]) matches Some((a, b))
                &&& g.labels.index_of_first(a) == Some(g.edges[e].source as int)
                &&& g.labels.index_of_first(b) == Some(g.edges[e].target as int)
            }
        },
{
    if let Ok(g) = parse(lines) {
        let n = count_of(trimmed(lines[0])).unwrap();
        if 0 <= e < g.edges.len() {
            lemma_all_known(g.labels, lines, n + 1, n + 1 + e);
            let (a, b) = edge_names(lines[n + 1 + e]).unwrap();
            g.labels.index_of_first_ensures(a);
            g.labels.index_of_first_ensures(b);
        }
    }
}

/// Reads the graph that `lines` describe.
#[verifier::loop_isolation(false)]
pub fn parse_lines(lines: &Vec<String>) -> (r: Result<Graph, LoadError>)
    ensures
        match r {
            Ok(g) => parse(lines.deep_view()) == Ok::<GraphView, LoadError>(g@) && g@.wf(),
            Err(e) => parse(lines.deep_view()) == Err::<GraphView, LoadError>(e),
        },
{
    let ghost text = lines.deep_view();
    let total: usize = lines.len();
    if total == 0 {
        return Err(LoadError::Empty);
    }
    assert(text[0] == lines@[0]@);
    let n: usize = match parse_count(trim(lines[0].as_str())) {
        Some(n) => n,
        None => {
            return Err(LoadError::BadCount);
        },
    };
    if n == 0 {
        return Err(LoadError::NoVertices);
    }
    if total <= n {
        return Err(LoadError::MissingVertex);
    }
    let mut labels: Vec<String> = Vec::new();
    let mut i: usize = 1;
    while i <= n
        invariant
            1 <= i <= n + 1,
            n < total == lines.len(),
            text == lines.deep_view(),
            labels.len() == i - 1,
            forall|j: int| 0 <= j < i - 1 ==> #[trigger] labels@[j]@ == trimmed(text[j + 1]),
        decreases n + 1 - i,
    {
        assert(text[i as int] == lines@[i as int]@);
        labels.push(trim(lines[i].as_str()).to_owned());
        i += 1;
    }
    let ghost declared = labels_of(text, n as nat);
    assert(labels.deep_view() =~= declared);

    let mut names: Vec<(&str, &str)> = Vec::new();
    let mut i: usize = n + 1;
    while i < total
        invariant
            n + 1 <= i <= total == lines.len(),
            text == lines.deep_view(),
            names.len() == i - (n + 1),
            forall|j: int|
                0 <= j < names.len() ==> edge_names(text[n + 1 + j]) == Some(
                    ((#[trigger] names@[j]).0@, names@[j].1@),
                ),
            first_malformed(text, n + 1) == first_malformed(text, i as int),
        decreases total - i,
    {
        assert(text[i as int] == lines@[i as int]@);
        match split_once(trim(lines[i].as_str()), ' ') {
            Some(pair) => {
                names.push(pair);
            },
            None => {
                return Err(LoadError::MalformedEdge { line: i });
            },
        }
        i += 1;
    }

    let mut edges: Vec<Edge> = Vec::new();
    let mut k: usize = 0;
    while k < names.len()
        invariant
            0 < n < total == text.len(),
            k <= names.len() == total - (n + 1),
            labels.deep_view() == declared,
            declared.len() == n,
            forall|j: int|
                0 <= j < names.len() ==> edge_names(text[n + 1 + j]) == Some(
                    ((#[trigger] names@[j]).0@, names@[j].1@),
                ),
            edges.len() == k,
            forall|j: int|
                0 <= j < k ==> edge_of(declared, text[n + 1 + j]) == Some(#[trigger] edges@[j]),
            forall|j: int| 0 <= j < k ==> (#[trigger] edges@[j]).within(n as nat),
            first_unknown(declared, text, n + 1) == first_unknown(declared, text, n + 1 + k),
        decreases names.len() - k,
    {
        let (a, b) = names[k];
        proof {
            declared.index_of_first_ensures(a@);
            declared.index_of_first_ensures(b@);
        }
        let source: usize = match position(&labels, a) {
            Some(v) => v,
            None => {
                return Err(LoadError::UnknownVertex { line: n + 1 + k });
            },
        };
        let target: usize = match position(&labels, b) {
            Some(v) => v,
            None => {
                return Err(LoadError::UnknownVertex { line: n + 1 + k });
            },
        };
        edges.push(Edge { source, target });
        k += 1;
    }
    assert(edges@ =~= edges_of(declared, text, n + 1));
    Ok(Graph::from_parts(labels, edges))
}

} // verus!
