use std::collections::HashMap;
use vstd::prelude::*;
use crate::error::{RoutyError, RoutyResult};

verus! {

broadcast use vstd::std_specs::hash::group_hash_axioms;

/// One endpoint of an edge. Coordinates are degrees, held as the bit
/// patterns of IEEE-754 doubles so that they are stored and reloaded exactly.
#[derive(Debug, Clone, Copy, PartialEq, Eq)]
pub struct Node {
    pub osm_id: i64,
    pub lat_bits: u64,
    pub lon_bits: u64,
}

/// One undirected segment between two consecutive points of a way.
/// `weight_bits` is the bit pattern of the segment's length in meters.
#[derive(Debug)]
pub struct Edge {
    pub osm_id: i64,
    pub nodes: Vec<Node>,
    pub weight_bits: u64,
}

/// The mathematical value of an [`Edge`].
pub ghost struct EdgeView {
    pub way_id: i64,
    pub ends: Seq<Node>,
    pub weight_bits: u64,
}

impl View for Edge {
    type V = EdgeView;

    open spec fn view(&self) -> EdgeView {
        EdgeView { way_id: self.osm_id, ends: self.nodes@, weight_bits: self.weight_bits }
    }
}

impl Edge {
    /// An edge joins exactly two endpoints.
    pub open spec fn wf(&self) -> bool {
        self.nodes.len() == 2
    }
}

/// A road of the extract: its identifier, the ordered references to its
/// points, and its tags as key/value pairs in the order the extract gives them.
#[derive(Debug)]
pub struct OSMWay {
    pub id: i64,
    pub refs: Vec<i64>,
    pub tags: Vec<(String, String)>,
}

/// A point of the extract, with coordinates held as in [`Node`].
#[derive(Debug, Clone, Copy, PartialEq, Eq)]
pub struct OSMNode {
    pub id: i64,
    pub lat_bits: u64,
    pub lon_bits: u64,
}

/// The endpoint that a resolved point becomes.
pub open spec fn node_of(n: OSMNode) -> Node {
    Node { osm_id: n.id, lat_bits: n.lat_bits, lon_bits: n.lon_bits }
}

/// Number of edges of a way with `n` references.
pub open spec fn edge_count(n: int) -> int {
    if n >= 2 {
        n - 1
    } else {
        0
    }
}

/// Number of edges of the ways before position `k`.
pub open spec fn edges_before(ways: Seq<OSMWay>, k: int) -> int
    decreases k,
{
    if k <= 0 {
        0
    } else {
        edges_before(ways, k - 1) + edge_count(ways[k - 1].refs.len() as int)
    }
}

/// Number of edges of all the ways.
pub open spec fn total_edges(ways: Seq<OSMWay>) -> int {
    edges_before(ways, ways.len() as int)
}

/// Identifier of the `i`-th edge of the way at position `k`: identifiers
/// count up from one across all the ways, in order.
pub open spec fn edge_id(ways: Seq<OSMWay>, k: int, i: int) -> int {
    edges_before(ways, k) + i + 1
}

/// Every reference of every way names a point of the map.
pub open spec fn all_resolved(ways: Seq<OSMWay>, nodes: Map<i64, OSMNode>) -> bool {
    forall|k: int, j: int|
        0 <= k < ways.len() && 0 <= j < ways[k].refs.len() ==> nodes.contains_key(
            #[trigger] ways[k].refs[j],
        )
}

/// Each point of the map is stored under its own identifier.
pub open spec fn keyed_by_id(nodes: Map<i64, OSMNode>) -> bool {
    forall|r: i64| #[trigger] nodes.contains_key(r) ==> nodes[r].id == r
}

/// `e` is the `i`-th edge of `way`: it names the way, joins the points of
/// references `i` and `i + 1`, and weighs what `weigh` gives for them.
pub open spec fn is_edge_of<F: Fn(OSMNode, OSMNode) -> u64>(
    e: EdgeView,
    way: OSMWay,
    nodes: Map<i64, OSMNode>,
    i: int,
    weigh: F,
) -> bool {
    let a = nodes[way.refs[i]];
    let b = nodes[way.refs[i + 1]];
    &&& e.way_id == way.id
    &&& e.ends == seq![node_of(a), node_of(b)]
    &&& weigh.ensures((a, b), e.weight_bits)
}

/// `edges` is the edge collection of `ways`: keyed by the identifiers one to
/// the number of edges (which fits an `i64`), each holding the edge that its identifier names.
pub open spec fn is_network<F: Fn(OSMNode, OSMNode) -> u64>(
    ways: Seq<OSMWay>,
    nodes: Map<i64, OSMNode>,
    weigh: F,
    edges: Map<i64, Edge>,
) -> bool {
    &&& total_edges(ways) < i64::MAX
    &&& forall|id: i64| #[trigger] edges.contains_key(id) <==> 1 <= id <= total_edges(ways)
    &&& forall|k: int, i: int|
        0 <= k < ways.len() && 0 <= i < edge_count(ways[k].refs.len() as int) ==> {
            let e = edges[#[trigger] edge_id(ways, k, i) as i64];
            &&& e.wf()
            &&& is_edge_of(e@, ways[k], nodes, i, weigh)
        }
}

proof fn lemma_edges_before_monotone(ways: Seq<OSMWay>, k1: int, k2: int)
    requires
        0 <= k1 <= k2 <= ways.len(),
    ensures
        0 <= edges_before(ways, k1) <= edges_before(ways, k2),
    decreases k2 - k1,
{
    if k1 < k2 {
        lemma_edges_before_monotone(ways, k1, k2 - 1);
    } else {
        lemma_edges_before_nonneg(ways, k1);
    }
}

proof fn lemma_edges_before_nonneg(ways: Seq<OSMWay>, k: int)
    ensures
        0 <= edges_before(ways, k),
    decreases k,
{
    if k > 0 {
        lemma_edges_before_nonneg(ways, k - 1);
    }
}

fn endpoint(n: &OSMNode) -> (r: Node)
    ensures
        r == node_of(*n),
{
    Node { osm_id: n.id, lat_bits: n.lat_bits, lon_bits: n.lon_bits }
}

/// Splits every way into its edges, one per pair of consecutive references,
/// weighed by `weigh` on the pair's two points. Edge identifiers count up from
/// one across all the ways. A reference that names no point of `nodes` aborts
/// the whole run with `MissingNode`; then no edges are returned.
pub fn create<F: Fn(OSMNode, OSMNode) -> u64>(
    ways: &Vec<OSMWay>,
    nodes: &HashMap<i64, OSMNode>,
    weigh: F,
) -> (r: RoutyResult<HashMap<i64, Edge>>)
    requires
        forall|a: OSMNode, b: OSMNode| #[trigger] weigh.requires((a, b)),
        total_edges(ways@) < i64::MAX,
    ensures
        r is Ok <==> all_resolved(ways@, nodes@),
        r matches Ok(edges) ==> is_network(ways@, nodes@, weigh, edges@),
        r matches Err(e) ==> e matches RoutyError::MissingNode { way_id, node_id } && exists|
            k: int,
            j: int,
        |
            0 <= k < ways.len() && 0 <= j < ways@[k].refs.len() && ways@[k].id == way_id
                && #[trigger] ways@[k].refs[j] == node_id && !nodes@.contains_key(node_id),
{
    let mut edges: HashMap<i64, Edge> = HashMap::new();
    let mut id: i64 = 1;
    let mut k: usize = 0;
    while k < ways.len()
        invariant
            0 <= k <= ways.len(),
            forall|a: OSMNode, b: OSMNode| #[trigger] weigh.requires((a, b)),
            total_edges(ways@) < i64::MAX,
            id == edges_before(ways@, k as int) + 1,
            forall|kk: int, j: int|
                0 <= kk < k && 0 <= j < ways@[kk].refs.len() ==> nodes@.contains_key(
                    #[trigger] ways@[kk].refs[j],
                ),
            forall|x: i64| #[trigger] edges@.contains_key(x) <==> 1 <= x < id,
            forall|kk: int, i: int|
                0 <= kk < k && 0 <= i < edge_count(ways@[kk].refs.len() as int) ==> {
                    let e = edges@[#[trigger] edge_id(ways@, kk, i) as i64];
                    &&& e.wf()
                    &&& is_edge_of(e@, ways@[kk], nodes@, i, weigh)
                },
        decreases ways.len() - k,
    {
        let way = &ways[k];
        proof {
            lemma_edges_before_monotone(ways@, k as int + 1, ways@.len() as int);
            lemma_edges_before_nonneg(ways@, k as int);
        }
        let ghost first = id;
        let mut prev: Option<OSMNode> = None;
        let mut j: usize = 0;
        while j < way.refs.len()
            invariant
                0 <= k < ways.len(),
                way == ways@[k as int],
                0 <= j <= way.refs.len(),
                forall|a: OSMNode, b: OSMNode| #[trigger] weigh.requires((a, b)),
                edges_before(ways@, k as int + 1) < i64::MAX,
                first == edges_before(ways@, k as int) + 1,
                first >= 1,
                id == first + edge_count(j as int),
                j == 0 ==> prev is None,
                j > 0 ==> prev == Some(nodes@[way.refs@[j - 1]]),
                forall|kk: int, jj: int|
                    0 <= kk < k && 0 <= jj < ways@[kk].refs.len() ==> nodes@.contains_key(
                        #[trigger] ways@[kk].refs[jj],
                    ),
                forall|jj: int| 0 <= jj < j ==> nodes@.contains_key(#[trigger] way.refs@[jj]),
                forall|x: i64| #[trigger] edges@.contains_key(x) <==> 1 <= x < id,
                forall|kk: int, i: int|
                    0 <= kk < k && 0 <= i < edge_count(ways@[kk].refs.len() as int) ==> {
                        let e = edges@[#[trigger] edge_id(ways@, kk, i) as i64];
                        &&& e.wf()
                        &&& is_edge_of(e@, ways@[kk], nodes@, i, weigh)
                    },
                forall|i: int|
                    0 <= i < edge_count(j as int) ==> {
                        let e = edges@[#[trigger] edge_id(ways@, k as int, i) as i64];
                        &&& e.wf()
                        &&& is_edge_of(e@, ways@[k as int], nodes@, i, weigh)
                    },
            decreases way.refs.len() - j,
        {
            let r = way.refs[j];
            let current = match nodes.get(&r) {
                Some(n) => *n,
                None => {
                    proof {
                        assert(ways@[k as int].refs[j as int] == r);
                    }
                    return Err(RoutyError::MissingNode { way_id: way.id, node_id: r });
                },
            };
            if let Some(before) = prev {
                let weight_bits = weigh(before, current);
                let mut ends: Vec<Node> = Vec::new();
                ends.push(endpoint(&before));
                ends.push(endpoint(&current));
                let edge = Edge { osm_id: way.id, nodes: ends, weight_bits };
                proof {
                    assert(edge@.ends =~= seq![node_of(before), node_of(current)]);
                }
                let ghost before_insert = edges@;
                edges.insert(id, edge);
                proof {
                    assert forall|kk: int, i: int|
                        0 <= kk < k && 0 <= i < edge_count(
                            ways@[kk].refs.len() as int,
                        ) implies {
                        let e = edges@[#[trigger] edge_id(ways@, kk, i) as i64];
                        &&& e.wf()
                        &&& is_edge_of(e@, ways@[kk], nodes@, i, weigh)
                    } by {
                        lemma_edges_before_monotone(ways@, kk + 1, k as int);
                        lemma_edges_before_nonneg(ways@, kk);
                        assert(edges_before(ways@, kk + 1) == edges_before(ways@, kk) + edge_count(
                            ways@[kk].refs.len() as int,
                        ));
                        assert(edge_id(ways@, kk, i) < first);
                        assert(edges@[edge_id(ways@, kk, i) as i64] == before_insert[edge_id(
                            ways@,
                            kk,
                            i,
                        ) as i64]);
                    }
                    assert(edge_id(ways@, k as int, j - 1) == id);
                }
                id = id + 1;
                proof {
                    assert forall|x: i64| #[trigger] edges@.contains_key(x) <==> 1 <= x < id by {
                        if x != id - 1 {
                            assert(edges@.contains_key(x) == before_insert.contains_key(x));
                        }
                    }
                }
            }
            prev = Some(current);
            j += 1;
        }
        k += 1;
    }
    Ok(edges)
}

/// The identifiers that the edges of the way at position `k` receive.
pub open spec fn owns_id(ways: Seq<OSMWay>, k: int, id: int) -> bool {
    edges_before(ways, k) < id <= edges_before(ways, k + 1)
}

/// A way with `n >= 2` references gives exactly `n - 1` edges, each naming
/// the way, and read in order their endpoints retrace the way's references:
/// edge `i` runs from reference `i` to reference `i + 1`, so the second
/// endpoint of each edge is the first endpoint of the next.
pub proof fn lemma_way_edges_chain<F: Fn(OSMNode, OSMNode) -> u64>(
    ways: Seq<OSMWay>,
    nodes: Map<i64, OSMNode>,
    weigh: F,
    edges: Map<i64, Edge>,
    k: int,
)
    requires
        is_network(ways, nodes, weigh, edges),
        keyed_by_id(nodes),
        all_resolved(ways, nodes),
        0 <= k < ways.len(),
        ways[k].refs.len() >= 2,
    ensures
        forall|id: int| #[trigger] owns_id(ways, k, id) <==> edge_id(ways, k, 0) <= id < edge_id(
            ways,
            k,
            ways[k].refs.len() - 1,
        ),
        forall|i: int|
            0 <= i < ways[k].refs.len() - 1 ==> {
                let e = edges[#[trigger] edge_id(ways, k, i) as i64]@;
                &&& edges.contains_key(edge_id(ways, k, i) as i64)
                &&& e.way_id == ways[k].id
                &&& e.ends.len() == 2
                &&& e.ends[0].osm_id == ways[k].refs[i]
                &&& e.ends[1].osm_id == ways[k].refs[i + 1]
            },
        forall|i: int|
            0 <= i < ways[k].refs.len() - 2 ==> (#[trigger] edges[edge_id(ways, k, i) as i64]@).ends[1]
                == edges[edge_id(ways, k, i + 1) as i64]@.ends[0],
{
    let n = ways[k].refs.len() as int;
    lemma_edges_before_monotone(ways, 0, k);
    lemma_edges_before_monotone(ways, k + 1, ways.len() as int);
    assert forall|i: int| 0 <= i < n - 1 implies {
        let e = edges[#[trigger] edge_id(ways, k, i) as i64]@;
        &&& edges.contains_key(edge_id(ways, k, i) as i64)
        &&& e.way_id == ways[k].id
        &&& e.ends.len() == 2
        &&& e.ends[0].osm_id == ways[k].refs[i]
        &&& e.ends[1].osm_id == ways[k].refs[i + 1]
    } by {
        lemma_edges_before_nonneg(ways, k);
        assert(edges.contains_key(edge_id(ways, k, i) as i64));
        assert(nodes.contains_key(ways[k].refs[i]));
        assert(nodes.contains_key(ways[k].refs[i + 1]));
    }
    assert forall|i: int| 0 <= i < n - 2 implies (#[trigger] edges[edge_id(
        ways,
        k,
        i,
    ) as i64]@).ends[1] == edges[edge_id(ways, k, i + 1) as i64]@.ends[0] by {
        assert(nodes.contains_key(ways[k].refs[i + 1]));
        assert(edge_id(ways, k, i + 1) == edge_id(ways, k, i) + 1);
    }
}

/// A way with at most one reference gives no edge: no identifier is its.
pub proof fn lemma_short_way_no_edges(ways: Seq<OSMWay>, k: int)
    requires
        0 <= k < ways.len(),
        ways[k].refs.len() <= 1,
    ensures
        forall|id: int| !#[trigger] owns_id(ways, k, id),
{
}

/// Edges of different ways, or at different places of one way, never share
/// an identifier.
pub proof fn lemma_edge_ids_distinct(ways: Seq<OSMWay>, k1: int, i1: int, k2: int, i2: int)
    requires
        0 <= k1 < ways.len(),
        0 <= k2 < ways.len(),
        0 <= i1 < edge_count(ways[k1].refs.len() as int),
        0 <= i2 < edge_count(ways[k2].refs.len() as int),
        k1 != k2 || i1 != i2,
    ensures
        edge_id(ways, k1, i1) != edge_id(ways, k2, i2),
        owns_id(ways, k1, edge_id(ways, k1, i1)),
{
    if k1 < k2 {
        lemma_edges_before_monotone(ways, k1 + 1, k2);
    } else if k2 < k1 {
        lemma_edges_before_monotone(ways, k2 + 1, k1);
    }
}

} // verus!
