//! The position that stands for a way.

use crate::coord::Coord;
use crate::osm::{lookup, OsmGraph, OsmId, OsmObj, Way};
use vstd::prelude::*;

verus! {

/// The position of the node in the middle of a way: the node at half the
/// length of its chain. None when the way has no node, or when the graph does
/// not hold that node.
pub open spec fn midpoint(objs: Seq<OsmObj>, way: Way) -> Option<Coord> {
    if way.nodes@.len() == 0 {
        None
    } else {
        match lookup(objs, OsmId::Node(way.nodes@[way.nodes@.len() as int / 2])) {
            Some(OsmObj::Node(n)) => Some(Coord { lon: n.decimicro_lon, lat: n.decimicro_lat }),
            _ => None,
        }
    }
}

/// The position that stands for a way: that of its middle node, or longitude
/// and latitude zero when the middle node is not known.
pub open spec fn way_coord(objs: Seq<OsmObj>, way: Way) -> Coord {
    match midpoint(objs, way) {
        Some(c) => c,
        None => Coord::origin(),
    }
}

/// Finds the position of the node in the middle of a way.
pub fn get_way_midpoint(graph: &OsmGraph, way: &Way) -> (r: Option<Coord>)
    requires
        graph.wf(),
    ensures
        r == midpoint(graph@, *way),
{
    let n: usize = way.nodes.len();
    if n == 0 {
        return None;
    }
    match graph.get(OsmId::Node(way.nodes[n / 2])) {
        Some(OsmObj::Node(node)) => Some(Coord::new(node.decimicro_lon, node.decimicro_lat)),
        _ => None,
    }
}

/// Finds the position that stands for a way.
pub fn get_way_coord(graph: &OsmGraph, way: &Way) -> (r: Coord)
    requires
        graph.wf(),
    ensures
        r == way_coord(graph@, *way),
{
    match get_way_midpoint(graph, way) {
        Some(c) => c,
        None => Coord::default(),
    }
}

} // verus!
