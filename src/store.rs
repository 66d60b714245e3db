use vstd::prelude::*;
use crate::network::{Edge, EdgeView, Node};

verus! {

/// One row of the `routing` table: the row identifier that storage assigns,
/// the way, both endpoints, and the weight. Coordinates and weight are the bit
/// patterns of the doubles stored in the REAL columns.
#[derive(Debug, Clone, Copy, PartialEq, Eq)]
pub struct Network {
    pub id: i64,
    pub way_id: i64,
    pub node1_id: i64,
    pub node1_lat: u64,
    pub node1_lon: u64,
    pub node2_id: i64,
    pub node2_lat: u64,
    pub node2_lon: u64,
    pub weight: u64,
}

/// The row that stores edge `e` under row identifier `id`.
pub open spec fn row_of(id: i64, e: EdgeView) -> Network {
    Network {
        id,
        way_id: e.way_id,
        node1_id: e.ends[0].osm_id,
        node1_lat: e.ends[0].lat_bits,
        node1_lon: e.ends[0].lon_bits,
        node2_id: e.ends[1].osm_id,
        node2_lat: e.ends[1].lat_bits,
        node2_lon: e.ends[1].lon_bits,
        weight: e.weight_bits,
    }
}

/// The edge that row `row` holds.
pub open spec fn edge_of(row: Network) -> EdgeView {
    EdgeView {
        way_id: row.way_id,
        ends: seq![
            Node { osm_id: row.node1_id, lat_bits: row.node1_lat, lon_bits: row.node1_lon },
            Node { osm_id: row.node2_id, lat_bits: row.node2_lat, lon_bits: row.node2_lon },
        ],
        weight_bits: row.weight,
    }
}

impl Network {
    /// The row that stores `edge` under row identifier `id`: every field of
    /// the edge is kept as it is.
    pub fn from_edge(id: i64, edge: &Edge) -> (r: Network)
        requires
            edge.wf(),
        ensures
            r == row_of(id, edge@),
    {
        let first = edge.nodes[0];
        let second = edge.nodes[1];
        Network {
            id,
            way_id: edge.osm_id,
            node1_id: first.osm_id,
            node1_lat: first.lat_bits,
            node1_lon: first.lon_bits,
            node2_id: second.osm_id,
            node2_lat: second.lat_bits,
            node2_lon: second.lon_bits,
            weight: edge.weight_bits,
        }
    }

    /// The edge that this row holds.
    pub fn to_edge(&self) -> (r: Edge)
        ensures
            r@ == edge_of(*self),
            r.wf(),
    {
        let mut ends: Vec<Node> = Vec::new();
        ends.push(Node { osm_id: self.node1_id, lat_bits: self.node1_lat, lon_bits: self.node1_lon });
        ends.push(Node { osm_id: self.node2_id, lat_bits: self.node2_lat, lon_bits: self.node2_lon });
        let r = Edge { osm_id: self.way_id, nodes: ends, weight_bits: self.weight };
        proof {
            assert(r@.ends =~= edge_of(*self).ends);
        }
        r
    }
}

/// Storing an edge and reading its row back gives the same edge, whatever
/// row identifier storage assigned: way, endpoints and weight are unchanged.
pub proof fn lemma_row_round_trip(id: i64, e: Edge)
    requires
        e.wf(),
    ensures
        edge_of(row_of(id, e@)) == e@,
{
    assert(edge_of(row_of(id, e@)).ends =~= e@.ends);
}

/// Reading a row as an edge and storing that edge again gives back the row,
/// under the same row identifier.
pub proof fn lemma_edge_round_trip(row: Network)
    ensures
        row_of(row.id, edge_of(row)) == row,
{
}

} // verus!
