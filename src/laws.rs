use vstd::prelude::*;

use crate::builder::polygons_from;
use crate::polygon::{Polygon, PolygonRef};
use crate::resolver::{shapes_of, ResolveError, joins, resolved_ring, resolves_to, ring_step, ring_upto};

verus! {

/// The number of gaps among the first `j` steps of the walk round `ord`.
pub open spec fn ring_gaps(shapes: Seq<Seq<usize>>, v: usize, ord: Seq<usize>, j: int) -> int
    decreases j,
{
    if j <= 0 {
        0
    } else {
        ring_gaps(shapes, v, ord, j - 1) + if joins(shapes, v, ord[j - 1], ord[j % (ord.len() as int)]) {
            0int
        } else {
            1int
        }
    }
}

proof fn lemma_upto_closed(shapes: Seq<Seq<usize>>, v: usize, ord: Seq<usize>, j: int)
    requires
        0 <= j <= ord.len(),
        forall|i: int| 1 <= i <= ord.len() ==> #[trigger] joins(shapes, v, ord[i - 1], ord[i % (ord.len() as int)]),
    ensures
        forall|i: int| 0 <= i < ring_upto(shapes, v, ord, j).len() ==> #[trigger] ring_upto(shapes, v, ord, j)[i] is Polygon,
    decreases j,
{
    if j > 0 {
        lemma_upto_closed(shapes, v, ord, j - 1);
        assert(joins(shapes, v, ord[j - 1], ord[j % (ord.len() as int)]));
        let prefix = ring_upto(shapes, v, ord, j - 1);
        let step = ring_step(shapes, v, ord, j);
        assert forall|i: int| 0 <= i < ring_upto(shapes, v, ord, j).len() implies #[trigger] ring_upto(shapes, v, ord, j)[i] is Polygon by {
            if i < prefix.len() {
                assert(ring_upto(shapes, v, ord, j)[i] == prefix[i]);
            } else {
                assert(ring_upto(shapes, v, ord, j)[i] == step[i - prefix.len()]);
            }
        }
    }
}

/// Where every two angularly consecutive polygons round a vertex share their edge at
/// it (the vertex lies inside a closed mesh), its resolved ring holds no obstacle.
pub proof fn lemma_closed_ring_has_no_obstacle(shapes: Seq<Seq<usize>>, v: usize, ord: Seq<usize>)
    requires
        forall|i: int| 1 <= i <= ord.len() ==> #[trigger] joins(shapes, v, ord[i - 1], ord[i % (ord.len() as int)]),
    ensures
        forall|i: int| 0 <= i < resolved_ring(shapes, v, ord).len() ==> #[trigger] resolved_ring(shapes, v, ord)[i] != PolygonRef::Obstacle,
{
    lemma_upto_closed(shapes, v, ord, ord.len() as int);
}

proof fn lemma_upto_shape(shapes: Seq<Seq<usize>>, v: usize, ord: Seq<usize>, j: int)
    requires
        0 <= j <= ord.len(),
    ensures
        ring_upto(shapes, v, ord, j).len() == j + ring_gaps(shapes, v, ord, j),
        j > 0 ==> ring_upto(shapes, v, ord, j).last() is Polygon,
        forall|i: int| 0 <= i < ring_upto(shapes, v, ord, j).len() - 1 && #[trigger] ring_upto(shapes, v, ord, j)[i] is Obstacle
            ==> ring_upto(shapes, v, ord, j)[i + 1] is Polygon,
    decreases j,
{
    if j > 0 {
        lemma_upto_shape(shapes, v, ord, j - 1);
        let prefix = ring_upto(shapes, v, ord, j - 1);
        let step = ring_step(shapes, v, ord, j);
        let whole = ring_upto(shapes, v, ord, j);
        assert(whole == prefix + step);
        assert forall|i: int| 0 <= i < whole.len() - 1 && #[trigger] whole[i] is Obstacle implies whole[i + 1] is Polygon by {
            if i + 1 < prefix.len() {
                assert(whole[i] == prefix[i]);
                assert(whole[i + 1] == prefix[i + 1]);
            } else if i + 1 == prefix.len() {
                assert(whole[i] == prefix.last());
            } else {
                assert(whole[i] == step[i - prefix.len()]);
                assert(whole[i + 1] == step[i + 1 - prefix.len()]);
            }
        }
    }
}

/// The shape of a resolved ring: its length is the number of polygons round the
/// vertex plus the number of gaps, it ends with a polygon, and every obstacle is
/// followed by a polygon, so no two obstacles stand side by side.
pub proof fn lemma_resolved_ring_shape(shapes: Seq<Seq<usize>>, v: usize, ord: Seq<usize>)
    ensures
        resolved_ring(shapes, v, ord).len() == ord.len() + ring_gaps(shapes, v, ord, ord.len() as int),
        ord.len() > 0 ==> resolved_ring(shapes, v, ord).last() is Polygon,
        forall|i: int| 0 <= i < resolved_ring(shapes, v, ord).len() - 1 && #[trigger] resolved_ring(shapes, v, ord)[i] is Obstacle
            ==> resolved_ring(shapes, v, ord)[i + 1] is Polygon,
{
    lemma_upto_shape(shapes, v, ord, ord.len() as int);
}

/// Baking is deterministic: two bakes of the same index buffer with the same angular
/// orders give the same polygons, and the same rings or the same error.
pub proof fn lemma_bake_is_deterministic(
    indices: Seq<usize>,
    polys1: Seq<Polygon>,
    polys2: Seq<Polygon>,
    orders: Seq<Vec<usize>>,
    r1: Result<Vec<Vec<PolygonRef>>, ResolveError>,
    r2: Result<Vec<Vec<PolygonRef>>, ResolveError>,
)
    requires
        polygons_from(indices, polys1),
        polygons_from(indices, polys2),
        resolves_to(shapes_of(polys1), orders, r1),
        resolves_to(shapes_of(polys2), orders, r2),
    ensures
        polys1.len() == polys2.len(),
        forall|t: int| 0 <= t < polys1.len() ==> (#[trigger] polys1[t]).vertices@ == polys2[t].vertices@
            && polys1[t].is_one_way == polys2[t].is_one_way,
        r1 is Ok <==> r2 is Ok,
        r1 is Err ==> r1->Err_0 == r2->Err_0,
        r1 is Ok ==> r1->Ok_0@.len() == r2->Ok_0@.len() && forall|w: int| 0 <= w < r1->Ok_0@.len()
            ==> (#[trigger] r1->Ok_0@[w])@ == r2->Ok_0@[w]@,
{
    assert(shapes_of(polys1) =~= shapes_of(polys2));
}

} // verus!
