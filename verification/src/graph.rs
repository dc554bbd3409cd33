//! An undirected vertex graph: an ordered sequence of vertex locations and,
//! for each vertex, the indices of its neighbors. Callers are expected to
//! provide symmetric edges; nothing here depends on that symmetry.

use crate::motion::Point;
use vstd::prelude::*;

verus! {

pub struct Graph {
    pub vertices: Vec<Point>,
    pub edges: Vec<Vec<usize>>,
}

impl Graph {
    /// The location of a vertex, if the index is in range.
    pub fn vertex(&self, i: usize) -> (r: Option<Point>)
        ensures
            match r {
                Some(p) => i < self.vertices@.len() && p == self.vertices@[i as int],
                None => i >= self.vertices@.len(),
            },
    {
        if i < self.vertices.len() {
            Some(self.vertices[i])
        } else {
            None
        }
    }
}

} // verus!
