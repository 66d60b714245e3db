use std::collections::HashMap;

use geo::{Distance, Geodesic, Point};
use routy::error::RoutyError;
use routy::extract::is_road;
use routy::network::{create, Edge, Node, OSMNode, OSMWay};
use routy::store::Network;

fn point(id: i64, lat: f64, lon: f64) -> OSMNode {
    OSMNode { id, lat_bits: lat.to_bits(), lon_bits: lon.to_bits() }
}

fn way(id: i64, refs: Vec<i64>) -> OSMWay {
    OSMWay { id, refs, tags: vec![("highway".to_string(), "residential".to_string())] }
}

fn geodesic_weight(a: OSMNode, b: OSMNode) -> u64 {
    let p1 = Point::new(f64::from_bits(a.lon_bits), f64::from_bits(a.lat_bits));
    let p2 = Point::new(f64::from_bits(b.lon_bits), f64::from_bits(b.lat_bits));
    Geodesic.distance(p1, p2).to_bits()
}

fn node_map(points: Vec<OSMNode>) -> HashMap<i64, OSMNode> {
    let mut nodes = HashMap::new();
    for p in points {
        nodes.insert(p.id, p);
    }
    nodes
}

fn grid(n: i64) -> HashMap<i64, OSMNode> {
    node_map((1..=n).map(|i| point(i, 40.0 + 0.001 * i as f64, -3.0)).collect())
}

fn ids(edges: &HashMap<i64, Edge>) -> Vec<i64> {
    let mut keys: Vec<i64> = edges.keys().copied().collect();
    keys.sort();
    keys
}

fn ends(e: &Edge) -> (i64, i64) {
    assert_eq!(e.nodes.len(), 2);
    (e.nodes[0].osm_id, e.nodes[1].osm_id)
}

#[test]
fn three_point_way_gives_two_edges() {
    let nodes = node_map(vec![
        point(1, 40.0, -3.0),
        point(2, 40.001, -3.0),
        point(3, 40.002, -3.0),
    ]);
    let ways = vec![way(100, vec![1, 2, 3])];
    let edges = create(&ways, &nodes, geodesic_weight).unwrap();
    assert_eq!(ids(&edges), vec![1, 2]);
    assert_eq!(edges[&1].osm_id, 100);
    assert_eq!(edges[&2].osm_id, 100);
    assert_eq!(ends(&edges[&1]), (1, 2));
    assert_eq!(ends(&edges[&2]), (2, 3));
    assert_eq!(edges[&1].nodes[0], Node { osm_id: 1, lat_bits: 40.0f64.to_bits(), lon_bits: (-3.0f64).to_bits() });
    for id in [1i64, 2] {
        let w = f64::from_bits(edges[&id].weight_bits);
        assert!(w > 110.0 && w < 112.0, "weight {w}");
    }
    for id in [1i64, 2] {
        let edge = &edges[&id];
        let back = Network::from_edge(id + 10, edge).to_edge();
        assert_eq!(back.osm_id, edge.osm_id);
        assert_eq!(back.nodes, edge.nodes);
        assert_eq!(back.weight_bits, edge.weight_bits);
    }
}

#[test]
fn single_reference_gives_no_edge() {
    let nodes = grid(5);
    let ways = vec![way(7, vec![5])];
    let edges = create(&ways, &nodes, geodesic_weight).unwrap();
    assert!(edges.is_empty());
}

#[test]
fn empty_way_gives_no_edge() {
    let nodes = grid(2);
    let ways = vec![way(7, vec![]), way(8, vec![1, 2])];
    let edges = create(&ways, &nodes, geodesic_weight).unwrap();
    assert_eq!(ids(&edges), vec![1]);
    assert_eq!(edges[&1].osm_id, 8);
}

#[test]
fn identifiers_run_across_ways() {
    let nodes = grid(7);
    let ways = vec![way(1, vec![1, 2, 3]), way(2, vec![4, 5, 6, 7])];
    let edges = create(&ways, &nodes, geodesic_weight).unwrap();
    assert_eq!(ids(&edges), vec![1, 2, 3, 4, 5]);
    for id in 1..=2 {
        assert_eq!(edges[&id].osm_id, 1);
    }
    for id in 3..=5 {
        assert_eq!(edges[&id].osm_id, 2);
    }
    assert_eq!(ends(&edges[&3]), (4, 5));
    assert_eq!(ends(&edges[&5]), (6, 7));
}

#[test]
fn edges_retrace_the_way() {
    let nodes = grid(6);
    let refs = vec![3, 1, 4, 1, 5, 2, 6];
    let ways = vec![way(42, refs.clone())];
    let edges = create(&ways, &nodes, geodesic_weight).unwrap();
    assert_eq!(edges.len(), refs.len() - 1);
    let mut path = vec![ends(&edges[&1]).0];
    for id in 1..refs.len() as i64 {
        let (a, b) = ends(&edges[&id]);
        assert_eq!(a, *path.last().unwrap());
        assert_eq!(edges[&id].osm_id, 42);
        path.push(b);
    }
    assert_eq!(path, refs);
}

#[test]
fn missing_node_aborts_the_run() {
    let nodes = grid(3);
    let ways = vec![way(1, vec![1, 2, 3]), way(2, vec![2, 9, 3])];
    let r = create(&ways, &nodes, geodesic_weight);
    assert_eq!(r.unwrap_err(), RoutyError::MissingNode { way_id: 2, node_id: 9 });
}

#[test]
fn missing_node_in_single_reference_way() {
    let nodes = grid(3);
    let ways = vec![way(5, vec![11])];
    let r = create(&ways, &nodes, geodesic_weight);
    assert_eq!(r.unwrap_err(), RoutyError::MissingNode { way_id: 5, node_id: 11 });
}

#[test]
fn weight_is_what_the_measure_gives() {
    let nodes = node_map(vec![point(1, 35.29, -2.94), point(2, 35.30, -2.95)]);
    let ways = vec![way(3, vec![1, 2])];
    let edges = create(&ways, &nodes, geodesic_weight).unwrap();
    assert_eq!(edges[&1].weight_bits, geodesic_weight(nodes[&1], nodes[&2]));
    let counted = create(&ways, &nodes, |_a: OSMNode, b: OSMNode| b.id as u64 * 10).unwrap();
    assert_eq!(counted[&1].weight_bits, 20);
}

#[test]
fn weight_is_symmetric() {
    let a = point(1, 35.2923, -2.9381);
    let b = point(2, 35.2871, -2.9452);
    let ab = f64::from_bits(geodesic_weight(a, b));
    let ba = f64::from_bits(geodesic_weight(b, a));
    assert!((ab - ba).abs() < 1e-6);
    assert!(ab > 0.0);
}

#[test]
fn row_round_trip_keeps_every_field() {
    let edge = Edge {
        osm_id: 966590652,
        nodes: vec![
            Node { osm_id: -4, lat_bits: 35.5f64.to_bits(), lon_bits: (-2.25f64).to_bits() },
            Node { osm_id: 8, lat_bits: 0.1f64.to_bits(), lon_bits: 1e-7f64.to_bits() },
        ],
        weight_bits: 123.456f64.to_bits(),
    };
    let row = Network::from_edge(77, &edge);
    assert_eq!(row.id, 77);
    assert_eq!(row.way_id, 966590652);
    assert_eq!(row.node1_id, -4);
    assert_eq!(row.node2_id, 8);
    assert_eq!(f64::from_bits(row.node2_lon), 1e-7);
    assert_eq!(f64::from_bits(row.weight), 123.456);
    let back = row.to_edge();
    assert_eq!(back.osm_id, edge.osm_id);
    assert_eq!(back.nodes, edge.nodes);
    assert_eq!(back.weight_bits, edge.weight_bits);
    assert_eq!(Network::from_edge(77, &back), row);
}

#[test]
fn road_tag_decides() {
    assert!(is_road(&vec!["name".to_string(), "highway".to_string()]));
    assert!(!is_road(&vec!["building".to_string(), "name".to_string()]));
    assert!(!is_road(&vec![]));
    assert!(!is_road(&vec!["Highway".to_string(), "highways".to_string()]));
}
