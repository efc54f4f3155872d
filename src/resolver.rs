use vstd::prelude::*;

use crate::polygon::{ccw_edge, cw_edge, lemma_incident_edges, Polygon, PolygonRef};

verus! {

/// The vertex sequences of a list of polygons.
pub open spec fn shapes_of(polys: Seq<Polygon>) -> Seq<Seq<usize>> {
    polys.map_values(|p: Polygon| p.vertices@)
}

/// Polygon `p` can stand in the ring of vertex `v`: it exists and has `v` as a vertex.
pub open spec fn fits(shapes: Seq<Seq<usize>>, v: usize, p: usize) -> bool {
    p < shapes.len() && shapes[p as int].contains(v)
}

/// Polygons `p` and `q`, angularly consecutive around `v`, are neighbours there:
/// the edge of `p` that ends at `v` is the edge of `q` that starts at `v`, reversed.
pub open spec fn joins(shapes: Seq<Seq<usize>>, v: usize, p: usize, q: usize) -> bool {
    match (ccw_edge(shapes[p as int], v), cw_edge(shapes[q as int], v)) {
        (Some(a), Some(c)) => a.0 == c.1 && a.1 == c.0,
        _ => false,
    }
}

/// What the `j`-th step of the walk round the ordered ring `ord` adds: an obstacle
/// if the previous polygon does not join the `j`-th (cyclically), then that polygon.
pub open spec fn ring_step(shapes: Seq<Seq<usize>>, v: usize, ord: Seq<usize>, j: int) -> Seq<PolygonRef> {
    let q = ord[j % (ord.len() as int)];
    if joins(shapes, v, ord[j - 1], q) {
        seq![PolygonRef::Polygon(q)]
    } else {
        seq![PolygonRef::Obstacle, PolygonRef::Polygon(q)]
    }
}

/// The first `j` steps of the walk.
pub open spec fn ring_upto(shapes: Seq<Seq<usize>>, v: usize, ord: Seq<usize>, j: int) -> Seq<PolygonRef>
    decreases j,
{
    if j <= 0 {
        Seq::empty()
    } else {
        ring_upto(shapes, v, ord, j - 1) + ring_step(shapes, v, ord, j)
    }
}

/// The resolved ring of vertex `v`: the whole walk round `ord`, which ends where it began.
pub open spec fn resolved_ring(shapes: Seq<Seq<usize>>, v: usize, ord: Seq<usize>) -> Seq<PolygonRef> {
    ring_upto(shapes, v, ord, ord.len() as int)
}

/// The first polygon of `ord`, from position `j` on, that cannot stand in the ring of `v`.
pub open spec fn first_misfit(shapes: Seq<Seq<usize>>, v: usize, ord: Seq<usize>, j: int) -> Option<usize>
    decreases ord.len() - j,
{
    if j < 0 || j >= ord.len() {
        None
    } else if !fits(shapes, v, ord[j]) {
        Some(ord[j])
    } else {
        first_misfit(shapes, v, ord, j + 1)
    }
}

/// Why the ring of a vertex cannot be resolved.
#[derive(Clone, Copy, Debug, PartialEq, Eq, Structural)]
pub enum ResolveError {
    /// The vertex belongs to no polygon.
    NoPolygons { vertex: usize },
    /// The ring names a polygon that does not exist.
    UnknownPolygon { vertex: usize, polygon: usize },
    /// The ring names a polygon that does not have the vertex.
    VertexNotInPolygon { vertex: usize, polygon: usize },
}

/// The error that resolving the ring `ord` of vertex `v` reports, if any.
pub open spec fn ring_error(shapes: Seq<Seq<usize>>, v: usize, ord: Seq<usize>) -> Option<ResolveError> {
    if ord.len() == 0 {
        Some(ResolveError::NoPolygons { vertex: v })
    } else {
        match first_misfit(shapes, v, ord, 0) {
            Some(p) => Some(
                if p >= shapes.len() {
                    ResolveError::UnknownPolygon { vertex: v, polygon: p }
                } else {
                    ResolveError::VertexNotInPolygon { vertex: v, polygon: p }
                },
            ),
            None => None,
        }
    }
}

/// The error that resolving all rings reports: the first one, from vertex `v` on.
pub open spec fn first_ring_error(shapes: Seq<Seq<usize>>, orders: Seq<Vec<usize>>, v: int) -> Option<ResolveError>
    decreases orders.len() - v,
{
    if v < 0 || v >= orders.len() {
        None
    } else {
        match ring_error(shapes, v as usize, orders[v]@) {
            Some(e) => Some(e),
            None => first_ring_error(shapes, orders, v + 1),
        }
    }
}

/// `r` is the outcome of resolving the ring of every vertex, the `v`-th ordered as `orders[v]`.
pub open spec fn resolves_to(
    shapes: Seq<Seq<usize>>,
    orders: Seq<Vec<usize>>,
    r: Result<Vec<Vec<PolygonRef>>, ResolveError>,
) -> bool {
    match first_ring_error(shapes, orders, 0) {
        Some(e) => r is Err && r->Err_0 == e,
        None => r is Ok && r->Ok_0@.len() == orders.len() && forall|v: int|
            0 <= v < orders.len() ==> (#[trigger] r->Ok_0@[v])@ == resolved_ring(shapes, v as usize, orders[v]@),
    }
}

proof fn lemma_first_misfit(shapes: Seq<Seq<usize>>, v: usize, ord: Seq<usize>, j: int)
    requires
        0 <= j,
    ensures
        first_misfit(shapes, v, ord, j) is None <==> forall|k: int| j <= k < ord.len() ==> fits(shapes, v, #[trigger] ord[k]),
    decreases ord.len() - j,
{
    if j < ord.len() {
        lemma_first_misfit(shapes, v, ord, j + 1);
    }
}

proof fn lemma_first_ring_error(shapes: Seq<Seq<usize>>, orders: Seq<Vec<usize>>, v: int)
    requires
        0 <= v,
    ensures
        first_ring_error(shapes, orders, v) is None <==> forall|k: int| v <= k < orders.len() ==> (#[trigger] ring_error(shapes, k as usize, orders[k]@)) is None,
    decreases orders.len() - v,
{
    if v < orders.len() {
        lemma_first_ring_error(shapes, orders, v + 1);
    }
}

/// Resolves the ring of neighbouring polygons of vertex `vertex_index`, given those
/// polygons in counterclockwise angular order from an arbitrary start: walking the
/// ring, an obstacle is inserted between two consecutive polygons that do not share
/// their edge at the vertex.
pub fn resolve_vertex(polygons: &Vec<Polygon>, vertex_index: usize, ordered: &Vec<usize>) -> (r: Result<Vec<PolygonRef>, ResolveError>)
    ensures
        match ring_error(shapes_of(polygons@), vertex_index, ordered@) {
            Some(e) => r is Err && r->Err_0 == e,
            None => r is Ok && r->Ok_0@ == resolved_ring(shapes_of(polygons@), vertex_index, ordered@),
        },
        (exists|j: int| 0 <= j < ordered@.len() && !fits(shapes_of(polygons@), vertex_index, #[trigger] ordered@[j])) ==> r is Err,
{
    proof {
        lemma_first_misfit(shapes_of(polygons@), vertex_index, ordered@, 0);
    }
    let k = ordered.len();
    if k == 0 {
        return Err(ResolveError::NoPolygons { vertex: vertex_index });
    }
    let mut i: usize = 0;
    while i < k
        invariant
            k == ordered@.len(),
            i <= k,
            first_misfit(shapes_of(polygons@), vertex_index, ordered@, 0) == first_misfit(shapes_of(polygons@), vertex_index, ordered@, i as int),
        decreases k - i,
    {
        let p = ordered[i];
        if p >= polygons.len() {
            return Err(ResolveError::UnknownPolygon { vertex: vertex_index, polygon: p });
        }
        proof {
            lemma_incident_edges(polygons@[p as int].vertices@, vertex_index);
        }
        if polygons[p].get_clockwise_edge_containing_vertex(vertex_index).is_none() {
            return Err(ResolveError::VertexNotInPolygon { vertex: vertex_index, polygon: p });
        }
        i = i + 1;
    }
    let mut out: Vec<PolygonRef> = Vec::new();
    let mut i: usize = 0;
    while i < k
        invariant
            k == ordered@.len(),
            0 < k,
            i <= k,
            forall|j: int| 0 <= j < k ==> fits(shapes_of(polygons@), vertex_index, #[trigger] ordered@[j]),
            out@ == ring_upto(shapes_of(polygons@), vertex_index, ordered@, i as int),
        decreases k - i,
    {
        let prev = ordered[i];
        let next_pos: usize = if i + 1 == k { 0 } else { i + 1 };
        assert(next_pos as int == (i as int + 1) % (k as int)) by {
            if i + 1 == k {
                vstd::arithmetic::div_mod::lemma_mod_self_0(k as int);
            } else {
                vstd::arithmetic::div_mod::lemma_small_mod((i + 1) as nat, k as nat);
            }
        }
        let next = ordered[next_pos];
        assert(fits(shapes_of(polygons@), vertex_index, ordered@[next_pos as int]));
        proof {
            lemma_incident_edges(polygons@[prev as int].vertices@, vertex_index);
            lemma_incident_edges(polygons@[next as int].vertices@, vertex_index);
        }
        let a = polygons[prev].get_counterclockwise_edge_containing_vertex(vertex_index).unwrap();
        let c = polygons[next].get_clockwise_edge_containing_vertex(vertex_index).unwrap();
        let ghost before = out@;
        if a.0 != c.1 || a.1 != c.0 {
            out.push(PolygonRef::Obstacle);
        }
        out.push(PolygonRef::Polygon(next));
        assert(out@ =~= ring_upto(shapes_of(polygons@), vertex_index, ordered@, i as int + 1));
        i = i + 1;
    }
    Ok(out)
}

/// Resolves the ring of every vertex: the ring of vertex `v` is given, in angular
/// order, by `orders[v]`. The first vertex whose ring cannot be resolved stops the work.
pub fn resolve_all(polygons: &Vec<Polygon>, orders: &Vec<Vec<usize>>) -> (r: Result<Vec<Vec<PolygonRef>>, ResolveError>)
    ensures
        resolves_to(shapes_of(polygons@), orders@, r),
{
    proof {
        lemma_first_ring_error(shapes_of(polygons@), orders@, 0);
    }
    let mut rings: Vec<Vec<PolygonRef>> = Vec::new();
    let mut v: usize = 0;
    while v < orders.len()
        invariant
            v <= orders@.len(),
            rings@.len() == v,
            first_ring_error(shapes_of(polygons@), orders@, 0) == first_ring_error(shapes_of(polygons@), orders@, v as int),
            forall|w: int| 0 <= w < v ==> (#[trigger] rings@[w])@ == resolved_ring(shapes_of(polygons@), w as usize, orders@[w]@),
        decreases orders@.len() - v,
    {
        match resolve_vertex(polygons, v, &orders[v]) {
            Ok(ring) => {
                rings.push(ring);
            },
            Err(e) => {
                return Err(e);
            },
        }
        v = v + 1;
    }
    Ok(rings)
}

} // verus!
