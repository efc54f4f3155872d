use navmesh_topology::builder::{build_polygons, incident_polygons, triangles, BuildError};
use navmesh_topology::extract::{
    collider_tag, ground_tag, has_tag, matches_tag, navmesh_tag, select_mesh, ExtractError,
};
use navmesh_topology::polygon::{Polygon, PolygonRef};
use navmesh_topology::resolver::{resolve_all, resolve_vertex, ResolveError};

fn polygon(vertices: Vec<usize>) -> Polygon {
    Polygon { vertices, is_one_way: false }
}

fn quad() -> Vec<Polygon> {
    // (0,0) (1,0) (1,1) (0,1), split along the diagonal from 0 to 2.
    build_polygons(4, &vec![0, 1, 2, 0, 2, 3]).unwrap()
}

fn fan() -> Vec<Polygon> {
    // Centre 0 at (0,0), then (1,0) (0,1) (-1,0) (0,-1) counterclockwise.
    build_polygons(5, &vec![0, 1, 2, 0, 2, 3, 0, 3, 4, 0, 4, 1]).unwrap()
}

#[test]
fn single_triangle_has_one_obstacle_at_each_vertex() {
    let polys = build_polygons(3, &vec![0, 1, 2]).unwrap();
    assert_eq!(polys.len(), 1);
    assert!(polys[0].is_one_way);
    for v in 0..3 {
        let ring = resolve_vertex(&polys, v, &incident_polygons(&polys, v)).unwrap();
        assert_eq!(ring, vec![PolygonRef::Obstacle, PolygonRef::Polygon(0)]);
    }
}

#[test]
fn quad_outer_vertices_have_one_polygon_and_an_obstacle() {
    let polys = quad();
    assert_eq!(
        resolve_vertex(&polys, 1, &vec![0]).unwrap(),
        vec![PolygonRef::Obstacle, PolygonRef::Polygon(0)]
    );
    assert_eq!(
        resolve_vertex(&polys, 3, &vec![1]).unwrap(),
        vec![PolygonRef::Obstacle, PolygonRef::Polygon(1)]
    );
}

#[test]
fn quad_diagonal_vertices_join_across_the_diagonal() {
    let polys = quad();
    // Round vertex 0, polygon 0 comes first (towards (1,1)), then polygon 1 (towards (0,1)).
    // The diagonal is shared, so no obstacle separates 0 from 1; the ring closes over
    // the outer corner, where the two polygons share no edge.
    assert_eq!(
        resolve_vertex(&polys, 0, &vec![0, 1]).unwrap(),
        vec![PolygonRef::Polygon(1), PolygonRef::Obstacle, PolygonRef::Polygon(0)]
    );
    assert_eq!(
        resolve_vertex(&polys, 2, &vec![1, 0]).unwrap(),
        vec![PolygonRef::Polygon(0), PolygonRef::Obstacle, PolygonRef::Polygon(1)]
    );
}

#[test]
fn quad_triangles_are_one_way() {
    let polys = quad();
    assert!(polys[0].is_one_way);
    assert!(polys[1].is_one_way);
}

#[test]
fn fan_interior_polygons_are_not_one_way() {
    let polys = fan();
    for p in &polys {
        assert!(!p.is_one_way);
    }
}

#[test]
fn closed_ring_has_no_obstacle() {
    let polys = fan();
    let ring = resolve_vertex(&polys, 0, &vec![0, 1, 2, 3]).unwrap();
    assert_eq!(
        ring,
        vec![
            PolygonRef::Polygon(1),
            PolygonRef::Polygon(2),
            PolygonRef::Polygon(3),
            PolygonRef::Polygon(0)
        ]
    );
    assert!(!ring.contains(&PolygonRef::Obstacle));
}

#[test]
fn fan_rim_vertex_has_one_gap() {
    let polys = fan();
    let ring = resolve_vertex(&polys, 1, &vec![3, 0]).unwrap();
    assert_eq!(
        ring,
        vec![PolygonRef::Obstacle, PolygonRef::Polygon(0), PolygonRef::Polygon(3)]
    );
}

#[test]
fn baking_twice_gives_the_same_rings() {
    let indices = vec![0, 1, 2, 0, 2, 3, 0, 3, 4, 0, 4, 1];
    let orders = vec![vec![0, 1, 2, 3], vec![3, 0], vec![0, 1], vec![1, 2], vec![2, 3]];
    let first = resolve_all(&build_polygons(5, &indices).unwrap(), &orders).unwrap();
    let second = resolve_all(&build_polygons(5, &indices).unwrap(), &orders).unwrap();
    assert_eq!(first, second);
    assert_eq!(first.len(), 5);
}

#[test]
fn polygon_without_the_vertex_fails() {
    let polys = quad();
    assert_eq!(
        resolve_vertex(&polys, 1, &vec![0, 1]),
        Err(ResolveError::VertexNotInPolygon { vertex: 1, polygon: 1 })
    );
}

#[test]
fn unknown_polygon_fails() {
    let polys = quad();
    assert_eq!(
        resolve_vertex(&polys, 0, &vec![0, 7]),
        Err(ResolveError::UnknownPolygon { vertex: 0, polygon: 7 })
    );
}

#[test]
fn vertex_without_polygons_fails() {
    let polys = quad();
    assert_eq!(
        resolve_vertex(&polys, 9, &vec![]),
        Err(ResolveError::NoPolygons { vertex: 9 })
    );
}

#[test]
fn resolve_all_reports_the_first_bad_vertex() {
    let polys = quad();
    let orders = vec![vec![0, 1], vec![0], vec![5], vec![]];
    assert_eq!(
        resolve_all(&polys, &orders),
        Err(ResolveError::UnknownPolygon { vertex: 2, polygon: 5 })
    );
}

#[test]
fn index_out_of_range_fails() {
    assert!(matches!(
        build_polygons(3, &vec![0, 1, 2, 2, 1, 3]),
        Err(BuildError::VertexOutOfRange { position: 5, index: 3 })
    ));
}

#[test]
fn trailing_indices_are_dropped() {
    let tris = triangles(&vec![4, 5, 6, 7, 8]);
    assert_eq!(tris, vec![vec![4, 5, 6]]);
    let polys = build_polygons(3, &vec![0, 1, 2, 9]).unwrap();
    assert_eq!(polys.len(), 1);
    assert_eq!(polys[0].vertices, vec![0, 1, 2]);
}

#[test]
fn empty_index_buffer_gives_no_polygons() {
    let polys = build_polygons(0, &vec![]).unwrap();
    assert!(polys.is_empty());
}

#[test]
fn incident_polygons_are_ascending() {
    let polys = fan();
    assert_eq!(incident_polygons(&polys, 0), vec![0, 1, 2, 3]);
    assert_eq!(incident_polygons(&polys, 1), vec![0, 3]);
    assert_eq!(incident_polygons(&polys, 9), Vec::<usize>::new());
}

#[test]
fn incident_edges_follow_the_winding() {
    let p = polygon(vec![4, 7, 9]);
    assert_eq!(p.get_counterclockwise_edge_containing_vertex(7), Some((4, 7)));
    assert_eq!(p.get_clockwise_edge_containing_vertex(7), Some((7, 9)));
    assert_eq!(p.get_counterclockwise_edge_containing_vertex(4), Some((9, 4)));
    assert_eq!(p.get_clockwise_edge_containing_vertex(9), Some((9, 4)));
    assert_eq!(p.get_counterclockwise_edge_containing_vertex(5), None);
    assert_eq!(p.get_clockwise_edge_containing_vertex(5), None);
}

#[test]
fn single_mesh_is_selected() {
    assert_eq!(select_mesh(&vec![false, true, false]), Ok(1));
}

#[test]
fn no_mesh_is_an_error() {
    assert_eq!(
        select_mesh(&vec![false, false]),
        Err(ExtractError::MeshCount { found: 0 })
    );
}

#[test]
fn several_meshes_are_an_error() {
    assert_eq!(
        select_mesh(&vec![true, false, true, true]),
        Err(ExtractError::MeshCount { found: 3 })
    );
}

#[test]
fn tags_match_without_regard_to_case() {
    assert!(has_tag("Level [NavMesh] 2", &navmesh_tag()));
    assert!(has_tag("WALL[COLLIDER]", &collider_tag()));
    assert!(!has_tag("Level [ground]", &navmesh_tag()));
    assert!(has_tag("[Ground]", &ground_tag()));
    assert!(!has_tag("", &ground_tag()));
}

#[test]
fn tag_search_on_lowered_names() {
    let lowered: Vec<char> = "a [navmesh]".chars().collect();
    assert!(matches_tag(&lowered, &navmesh_tag()));
    let short: Vec<char> = "[nav".chars().collect();
    assert!(!matches_tag(&short, &navmesh_tag()));
    assert!(matches_tag(&short, &Vec::new()));
}
