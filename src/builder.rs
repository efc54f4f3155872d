use vstd::prelude::*;

use crate::polygon::Polygon;

verus! {

/// The `t`-th triangle of an index buffer: the `t`-th group of three indices.
pub open spec fn triangle_of(indices: Seq<usize>, t: int) -> Seq<usize> {
    indices.subrange(3 * t, 3 * t + 3)
}

/// The triangles of an index buffer, in order; a trailing incomplete group is dropped.
pub open spec fn triangles_of(indices: Seq<usize>) -> Seq<Seq<usize>> {
    Seq::new(indices.len() / 3, |t: int| triangle_of(indices, t))
}

/// Polygon `q` has a vertex in common with polygon `p`.
pub open spec fn touches(tris: Seq<Seq<usize>>, p: int, q: int) -> bool {
    exists|i: int| 0 <= i < tris[p].len() && #[trigger] tris[q].contains(tris[p][i])
}

/// Polygon `p` is one-way when fewer than three distinct polygons (itself included)
/// contain any of its vertices.
pub open spec fn one_way(tris: Seq<Seq<usize>>, p: int) -> bool {
    !exists|a: int, b: int, c: int|
        0 <= a < tris.len() && 0 <= b < tris.len() && 0 <= c < tris.len() && a != b && b != c
            && a != c && #[trigger] touches(tris, p, a) && #[trigger] touches(tris, p, b)
            && #[trigger] touches(tris, p, c)
}

/// The polygons built from an index buffer.
pub open spec fn polygons_from(indices: Seq<usize>, polys: Seq<Polygon>) -> bool {
    let tris = triangles_of(indices);
    &&& polys.len() == tris.len()
    &&& forall|t: int|
        0 <= t < tris.len() ==> (#[trigger] polys[t]).vertices@ == tris[t] && polys[t].is_one_way
            == one_way(tris, t)
}

/// The position of the first index, among those that form whole triangles, that
/// names no vertex.
pub open spec fn first_out_of_range(indices: Seq<usize>, vertex_count: usize, i: int) -> Option<int>
    decreases indices.len() - i,
{
    if i < 0 || i >= 3 * (indices.len() / 3) {
        None
    } else if indices[i] >= vertex_count {
        Some(i)
    } else {
        first_out_of_range(indices, vertex_count, i + 1)
    }
}

/// Why an index buffer cannot be turned into polygons.
#[derive(Clone, Copy, Debug, PartialEq, Eq, Structural)]
pub enum BuildError {
    /// The index at `position` names vertex `index`, and there are fewer vertices.
    VertexOutOfRange { position: usize, index: usize },
}

proof fn lemma_first_out_of_range(indices: Seq<usize>, vertex_count: usize, i: int)
    requires
        0 <= i,
    ensures
        first_out_of_range(indices, vertex_count, i) is None <==> forall|k: int|
            i <= k < 3 * (indices.len() / 3) ==> indices[k] < vertex_count,
        first_out_of_range(indices, vertex_count, i) is Some ==> {
            let k = first_out_of_range(indices, vertex_count, i)->0;
            i <= k < 3 * (indices.len() / 3) && indices[k] >= vertex_count
        },
    decreases indices.len() - i,
{
    if i < 3 * (indices.len() / 3) {
        lemma_first_out_of_range(indices, vertex_count, i + 1);
    }
}

proof fn lemma_push_contains(s: Seq<usize>, v: usize, x: usize)
    ensures
        s.push(v).contains(x) <==> s.contains(x) || x == v,
{
    if s.contains(x) {
        let i = choose|i: int| 0 <= i < s.len() && s[i] == x;
        assert(s.push(v)[i] == x);
    }
    if x == v {
        assert(s.push(v)[s.len() as int] == x);
    }
    if s.push(v).contains(x) {
        let i = choose|i: int| 0 <= i < s.len() + 1 && s.push(v)[i] == x;
        if i < s.len() {
            assert(s[i] == x);
        }
    }
}

/// Whether two vertex lists have a vertex in common.
fn shares_vertex(a: &Vec<usize>, b: &Vec<usize>) -> (r: bool)
    ensures
        r == exists|i: int| 0 <= i < a@.len() && #[trigger] b@.contains(a@[i]),
{
    let mut i: usize = 0;
    while i < a.len()
        invariant
            i <= a@.len(),
            forall|k: int| 0 <= k < i ==> !(#[trigger] b@.contains(a@[k])),
        decreases a.len() - i,
    {
        let mut j: usize = 0;
        while j < b.len()
            invariant
                i < a@.len(),
                j <= b@.len(),
                forall|k: int| 0 <= k < j ==> b@[k] != a@[i as int],
            decreases b.len() - j,
        {
            if b[j] == a[i] {
                assert(b@.contains(a@[i as int]));
                return true;
            }
            j = j + 1;
        }
        i = i + 1;
    }
    false
}

/// Whether the polygon at `p` is one-way among the given triangles.
fn is_one_way(tris: &Vec<Vec<usize>>, p: usize) -> (r: bool)
    requires
        p < tris@.len(),
    ensures
        r == one_way(tris@.map_values(|t: Vec<usize>| t@), p as int),
{
    let ghost views = tris@.map_values(|t: Vec<usize>| t@);
    let mut found: Vec<usize> = Vec::new();
    let mut q: usize = 0;
    while q < tris.len() && found.len() < 3
        invariant
            views == tris@.map_values(|t: Vec<usize>| t@),
            p < tris@.len(),
            q <= tris@.len(),
            found@.len() <= 3,
            forall|k: int| 0 <= k < found@.len() ==> found@[k] < q && touches(views, p as int, #[trigger] found@[k] as int),
            forall|k1: int, k2: int| 0 <= k1 < k2 < found@.len() ==> found@[k1] < found@[k2],
            forall|x: int| 0 <= x < q && #[trigger] touches(views, p as int, x) ==> found@.contains(x as usize),
        decreases tris@.len() - q,
    {
        let s = shares_vertex(&tris[p], &tris[q]);
        let ghost old_found = found@;
        proof {
            assert(views[p as int] == tris@[p as int]@);
            assert(views[q as int] == tris@[q as int]@);
            assert(s == touches(views, p as int, q as int));
        }
        if s {
            found.push(q);
        }
        proof {
            assert forall|x: int| 0 <= x < q + 1 && #[trigger] touches(views, p as int, x) implies found@.contains(x as usize) by {
                lemma_push_contains(old_found, q, x as usize);
            }
        }
        q = q + 1;
    }
    if found.len() >= 3 {
        assert(touches(views, p as int, found@[0] as int));
        assert(touches(views, p as int, found@[1] as int));
        assert(touches(views, p as int, found@[2] as int));
        false
    } else {
        assert forall|a: int, b: int, c: int|
            0 <= a < views.len() && 0 <= b < views.len() && 0 <= c < views.len() && a != b && b != c
                && a != c && #[trigger] touches(views, p as int, a) && #[trigger] touches(views, p as int, b)
                implies !#[trigger] touches(views, p as int, c) by {
            if touches(views, p as int, c) {
                assert(found@.contains(a as usize));
                assert(found@.contains(b as usize));
                assert(found@.contains(c as usize));
            }
        }
        true
    }
}

/// Groups an index buffer into triangles, three indices at a time; a trailing
/// incomplete group is dropped.
pub fn triangles(indices: &Vec<usize>) -> (r: Vec<Vec<usize>>)
    ensures
        r@.map_values(|t: Vec<usize>| t@) == triangles_of(indices@),
{
    let len = indices.len();
    let n = len / 3;
    proof {
        vstd::arithmetic::div_mod::lemma_fundamental_div_mod(indices@.len() as int, 3);
        vstd::arithmetic::div_mod::lemma_mod_pos_bound(indices@.len() as int, 3);
    }
    let mut r: Vec<Vec<usize>> = Vec::new();
    let mut t: usize = 0;
    while t < n
        invariant
            len == indices@.len(),
            n == indices@.len() / 3,
            3 * n <= indices@.len(),
            t <= n,
            r@.len() == t,
            forall|k: int| 0 <= k < t ==> (#[trigger] r@[k])@ == triangle_of(indices@, k),
        decreases n - t,
    {
        assert(3 * t + 2 < indices@.len()) by (nonlinear_arith)
            requires
                t < n,
                3 * n <= indices@.len(),
        ;
        let first: usize = 3 * t;
        let tri = vec![indices[first], indices[first + 1], indices[first + 2]];
        assert(tri@ =~= triangle_of(indices@, t as int));
        r.push(tri);
        t = t + 1;
    }
    assert(r@.map_values(|t: Vec<usize>| t@) =~= triangles_of(indices@));
    r
}

/// Builds the polygons of a mesh with `vertex_count` vertices from its triangle
/// index buffer, each with its one-way flag.
pub fn build_polygons(vertex_count: usize, indices: &Vec<usize>) -> (r: Result<Vec<Polygon>, BuildError>)
    ensures
        match first_out_of_range(indices@, vertex_count, 0) {
            Some(k) => r == Err::<Vec<Polygon>, BuildError>(
                BuildError::VertexOutOfRange { position: k as usize, index: indices@[k] },
            ),
            None => r is Ok && polygons_from(indices@, r->Ok_0@),
        },
        r is Ok <==> forall|k: int| 0 <= k < 3 * (indices@.len() / 3) ==> indices@[k] < vertex_count,
{
    proof {
        lemma_first_out_of_range(indices@, vertex_count, 0);
    }
    let used = 3 * (indices.len() / 3);
    let mut i: usize = 0;
    while i < used
        invariant
            used == 3 * (indices@.len() / 3),
            i <= used,
            first_out_of_range(indices@, vertex_count, 0) == first_out_of_range(indices@, vertex_count, i as int),
        decreases used - i,
    {
        if indices[i] >= vertex_count {
            return Err(BuildError::VertexOutOfRange { position: i, index: indices[i] });
        }
        i = i + 1;
    }
    let tris = triangles(indices);
    let ghost views = tris@.map_values(|t: Vec<usize>| t@);
    let mut polys: Vec<Polygon> = Vec::new();
    let mut t: usize = 0;
    while t < tris.len()
        invariant
            views == tris@.map_values(|t: Vec<usize>| t@),
            views == triangles_of(indices@),
            t <= tris@.len(),
            polys@.len() == t,
            forall|k: int| 0 <= k < t ==> (#[trigger] polys@[k]).vertices@ == views[k]
                && polys@[k].is_one_way == one_way(views, k),
        decreases tris@.len() - t,
    {
        let one = is_one_way(&tris, t);
        polys.push(Polygon { vertices: tris[t].clone(), is_one_way: one });
        t = t + 1;
    }
    Ok(polys)
}

/// The polygons that have `vertex` among their vertices, in increasing order.
pub fn incident_polygons(polygons: &Vec<Polygon>, vertex: usize) -> (r: Vec<usize>)
    ensures
        forall|k1: int, k2: int| 0 <= k1 < k2 < r@.len() ==> r@[k1] < r@[k2],
        forall|p: usize| #[trigger] r@.contains(p) <==> p < polygons@.len() && polygons@[p as int].vertices@.contains(vertex),
{
    let mut r: Vec<usize> = Vec::new();
    let mut p: usize = 0;
    while p < polygons.len()
        invariant
            p <= polygons@.len(),
            forall|k: int| 0 <= k < r@.len() ==> #[trigger] r@[k] < p,
            forall|k1: int, k2: int| 0 <= k1 < k2 < r@.len() ==> r@[k1] < r@[k2],
            forall|x: usize| #[trigger] r@.contains(x) <==> x < p && polygons@[x as int].vertices@.contains(vertex),
        decreases polygons@.len() - p,
    {
        let vs = &polygons[p].vertices;
        let mut i: usize = 0;
        let mut has = false;
        while i < vs.len()
            invariant
                i <= vs@.len(),
                has == exists|k: int| 0 <= k < i && vs@[k] == vertex,
            decreases vs.len() - i,
        {
            if vs[i] == vertex {
                has = true;
            }
            i = i + 1;
        }
        let ghost old_r = r@;
        assert(has == polygons@[p as int].vertices@.contains(vertex));
        if has {
            r.push(p);
        }
        assert forall|x: usize| #[trigger] r@.contains(x) <==> x < p + 1 && polygons@[x as int].vertices@.contains(vertex) by {
            lemma_push_contains(old_r, p, x);
            if old_r.contains(x) {
                let k = choose|k: int| 0 <= k < old_r.len() && old_r[k] == x;
                assert(old_r[k] < p);
            }
        }
        p = p + 1;
    }
    r
}

} // verus!
