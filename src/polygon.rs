use vstd::prelude::*;

verus! {

/// One entry of a vertex's ring of neighbours: a polygon, or a gap where no
/// polygon covers the sector between two angularly adjacent polygons.
#[derive(Clone, Copy, Debug, PartialEq, Eq, Structural)]
pub enum PolygonRef {
    Polygon(usize),
    Obstacle,
}

/// A polygon of the navigation mesh: vertex indices in counterclockwise order.
#[derive(Clone, Debug)]
pub struct Polygon {
    pub vertices: Vec<usize>,
    pub is_one_way: bool,
}

/// The `i`-th edge of a polygon: from its `i`-th vertex to the next one,
/// wrapping around after the last.
pub open spec fn edge_at(vs: Seq<usize>, i: int) -> (usize, usize) {
    (vs[i], vs[(i + 1) % (vs.len() as int)])
}

/// The first edge, from the `i`-th on, that ends at `v`.
pub open spec fn find_ending(vs: Seq<usize>, v: usize, i: int) -> Option<(usize, usize)>
    decreases vs.len() - i,
{
    if i < 0 || i >= vs.len() {
        None
    } else if edge_at(vs, i).1 == v {
        Some(edge_at(vs, i))
    } else {
        find_ending(vs, v, i + 1)
    }
}

/// The first edge, from the `i`-th on, that starts at `v`.
pub open spec fn find_starting(vs: Seq<usize>, v: usize, i: int) -> Option<(usize, usize)>
    decreases vs.len() - i,
{
    if i < 0 || i >= vs.len() {
        None
    } else if edge_at(vs, i).0 == v {
        Some(edge_at(vs, i))
    } else {
        find_starting(vs, v, i + 1)
    }
}

/// The counterclockwise-incident edge of a polygon at `v`: the first edge that ends there.
pub open spec fn ccw_edge(vs: Seq<usize>, v: usize) -> Option<(usize, usize)> {
    find_ending(vs, v, 0)
}

/// The clockwise-incident edge of a polygon at `v`: the first edge that starts there.
pub open spec fn cw_edge(vs: Seq<usize>, v: usize) -> Option<(usize, usize)> {
    find_starting(vs, v, 0)
}

proof fn lemma_find_ending(vs: Seq<usize>, v: usize, i: int)
    requires
        0 <= i <= vs.len(),
    ensures
        find_ending(vs, v, i) is Some <==> exists|j: int| i <= j < vs.len() && edge_at(vs, j).1 == v,
        find_ending(vs, v, i) is Some ==> (find_ending(vs, v, i)->0).1 == v,
    decreases vs.len() - i,
{
    if i < vs.len() {
        lemma_find_ending(vs, v, i + 1);
    }
}

proof fn lemma_find_starting(vs: Seq<usize>, v: usize, i: int)
    requires
        0 <= i <= vs.len(),
    ensures
        find_starting(vs, v, i) is Some <==> exists|j: int| i <= j < vs.len() && vs[j] == v,
        find_starting(vs, v, i) is Some ==> (find_starting(vs, v, i)->0).0 == v,
    decreases vs.len() - i,
{
    if i < vs.len() {
        lemma_find_starting(vs, v, i + 1);
    }
}

/// A polygon has both incident edges at `v` exactly when `v` is one of its vertices,
/// and the edges found do touch `v`.
pub proof fn lemma_incident_edges(vs: Seq<usize>, v: usize)
    ensures
        ccw_edge(vs, v) is Some <==> vs.contains(v),
        cw_edge(vs, v) is Some <==> vs.contains(v),
        ccw_edge(vs, v) is Some ==> (ccw_edge(vs, v)->0).1 == v,
        cw_edge(vs, v) is Some ==> (cw_edge(vs, v)->0).0 == v,
{
    lemma_find_ending(vs, v, 0);
    lemma_find_starting(vs, v, 0);
    let n = vs.len() as int;
    if vs.contains(v) {
        let m = choose|m: int| 0 <= m < n && vs[m] == v;
        let j = if m == 0 { n - 1 } else { m - 1 };
        assert((j + 1) % n == m) by {
            if m == 0 {
                vstd::arithmetic::div_mod::lemma_mod_self_0(n);
            } else {
                vstd::arithmetic::div_mod::lemma_small_mod(m as nat, n as nat);
            }
        }
        assert(edge_at(vs, j).1 == v);
    }
    if ccw_edge(vs, v) is Some {
        let j = choose|j: int| 0 <= j < n && edge_at(vs, j).1 == v;
        assert(0 <= (j + 1) % n < n) by {
            vstd::arithmetic::div_mod::lemma_mod_bound(j + 1, n);
        }
        assert(vs[(j + 1) % n] == v);
    }
}

impl Polygon {
    /// The edge of this polygon that ends at `vertex_index`, if any.
    pub fn get_counterclockwise_edge_containing_vertex(&self, vertex_index: usize) -> (r: Option<(usize, usize)>)
        ensures
            r == ccw_edge(self.vertices@, vertex_index),
    {
        let n = self.vertices.len();
        let mut i: usize = 0;
        while i < n
            invariant
                n == self.vertices@.len(),
                i <= n,
                ccw_edge(self.vertices@, vertex_index) == find_ending(self.vertices@, vertex_index, i as int),
            decreases n - i,
        {
            let next = if i + 1 == n { 0 } else { i + 1 };
            assert(next as int == (i as int + 1) % (n as int)) by {
                if i + 1 == n {
                    vstd::arithmetic::div_mod::lemma_mod_self_0(n as int);
                } else {
                    vstd::arithmetic::div_mod::lemma_small_mod((i + 1) as nat, n as nat);
                }
            }
            if self.vertices[next] == vertex_index {
                return Some((self.vertices[i], self.vertices[next]));
            }
            i = i + 1;
        }
        None
    }

    /// The edge of this polygon that starts at `vertex_index`, if any.
    pub fn get_clockwise_edge_containing_vertex(&self, vertex_index: usize) -> (r: Option<(usize, usize)>)
        ensures
            r == cw_edge(self.vertices@, vertex_index),
    {
        let n = self.vertices.len();
        let mut i: usize = 0;
        while i < n
            invariant
                n == self.vertices@.len(),
                i <= n,
                cw_edge(self.vertices@, vertex_index) == find_starting(self.vertices@, vertex_index, i as int),
            decreases n - i,
        {
            let next = if i + 1 == n { 0 } else { i + 1 };
            assert(next as int == (i as int + 1) % (n as int)) by {
                if i + 1 == n {
                    vstd::arithmetic::div_mod::lemma_mod_self_0(n as int);
                } else {
                    vstd::arithmetic::div_mod::lemma_small_mod((i + 1) as nat, n as nat);
                }
            }
            if self.vertices[i] == vertex_index {
                return Some((self.vertices[i], self.vertices[next]));
            }
            i = i + 1;
        }
        None
    }
}

} // verus!
