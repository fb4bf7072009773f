//! Layered neighbour lists of a search graph.

use vstd::prelude::*;

use crate::types::PointOffsetType;

verus! {

/// Neighbour lists of every point, from the lowest layer up to the level of the point.
#[derive(Debug)]
pub struct GraphLayers {
    /// Number of links per point above the lowest layer.
    pub m: usize,
    /// Number of links per point on the lowest layer.
    pub m0: usize,
    pub layers: Vec<Vec<Vec<PointOffsetType>>>,
}

impl GraphLayers {
    /// The neighbours of a point on a layer. A point has none above its level.
    pub open spec fn links(&self, point_id: int, level: int) -> Seq<PointOffsetType> {
        if 0 <= point_id < self.layers@.len() && 0 <= level < self.layers@[point_id]@.len() {
            self.layers@[point_id]@[level]@
        } else {
            Seq::empty()
        }
    }

    /// Number of links per point on a layer.
    pub open spec fn spec_m(&self, level: int) -> usize {
        if level == 0 {
            self.m0
        } else {
            self.m
        }
    }

    /// Number of links per point on a layer.
    pub fn get_m(&self, level: usize) -> (m: usize)
        ensures
            m == self.spec_m(level as int),
    {
        if level == 0 {
            self.m0
        } else {
            self.m
        }
    }

    /// Number of neighbours of a point on a layer.
    pub fn link_count(&self, point_id: usize, level: usize) -> (count: usize)
        ensures
            count == self.links(point_id as int, level as int).len(),
    {
        if point_id < self.layers.len() && level < self.layers[point_id].len() {
            self.layers[point_id][level].len()
        } else {
            0
        }
    }

    /// A copy of the neighbours of a point on a layer.
    pub fn copy_links(&self, point_id: usize, level: usize) -> (r: Vec<PointOffsetType>)
        ensures
            r@ == self.links(point_id as int, level as int),
    {
        let mut r: Vec<PointOffsetType> = Vec::new();
        if point_id < self.layers.len() && level < self.layers[point_id].len() {
            let list = &self.layers[point_id][level];
            let mut i: usize = 0;
            while i < list.len()
                invariant
                    i <= list@.len(),
                    r@ == list@.take(i as int),
                decreases list@.len() - i,
            {
                r.push(list[i]);
                proof {
                    assert(list@.take(i + 1) =~= list@.take(i as int).push(list@[i as int]));
                }
                i = i + 1;
            }
            proof {
                assert(list@.take(i as int) =~= list@);
            }
        }
        r
    }
}

} // verus!
