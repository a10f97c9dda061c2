use rooft::builder::Base;
use rooft::mesh::{Normal, Vertex, MAX_NODES};
use rooft::nodes::Turn;
use rooft::shape::BaseShape;

fn n(x: i8, y: i8, z: i8) -> Normal {
    Normal { x, y, z }
}

#[test]
fn rectangle_mesh_exact() {
    let (base, mesh) = BaseShape::Rectangle.create().expect("rectangle triangulates");
    assert_eq!(base.convex_turn, Turn::Clockwise);
    assert_eq!(base.nodes.len(), 4);
    for i in 0..4 {
        assert_eq!(base.nodes.get(i).turn, Turn::Clockwise);
    }
    let sides: Vec<u32> = vec![
        3, 1, 10, 1, 8, 10, //
        9, 7, 16, 7, 14, 16, //
        15, 13, 22, 13, 20, 22, //
        21, 19, 4, 19, 2, 4,
    ];
    let ears: Vec<u32> = vec![0, 12, 6, 5, 11, 17, 0, 18, 12, 5, 17, 23];
    let mut expected = sides.clone();
    expected.extend(ears);
    assert_eq!(mesh.indices, expected);

    assert_eq!(mesh.vertices.len(), 24);
    let top = Vertex { x: -7500, y: 150, z: -5000 };
    let bottom = Vertex { x: -7500, y: -150, z: -5000 };
    assert_eq!(mesh.vertices[0..6].to_vec(), vec![top, top, top, bottom, bottom, bottom]);
    assert_eq!(mesh.vertices[6], Vertex { x: 7500, y: 150, z: -5000 });
    assert_eq!(mesh.vertices[23], Vertex { x: -7500, y: -150, z: 5000 });

    assert_eq!(mesh.normals.len(), 24);
    assert_eq!(
        mesh.normals[0..6].to_vec(),
        vec![n(0, 1, 0), n(0, 0, -1), n(-1, 0, 0), n(0, 0, -1), n(-1, 0, 0), n(0, -1, 0)]
    );
    // node 1 at (7500, -5000): its sides face -z (to node 0) and +x (to node 2)
    assert_eq!(
        mesh.normals[6..12].to_vec(),
        vec![n(0, 1, 0), n(1, 0, 0), n(0, 0, -1), n(1, 0, 0), n(0, 0, -1), n(0, -1, 0)]
    );
}

#[test]
fn counter_clockwise_rectangle_normals_face_outwards() {
    let builder = Base::builder()
        .start_point(-1000, -1000)
        .move_z_to(1000)
        .move_x_to(1000)
        .move_z_to(-1000);
    let (_, mesh) = builder.build().expect("rectangle triangulates");
    // node 0 at (-1000, -1000): sides on x = -1000 and z = -1000
    assert_eq!(
        mesh.normals[0..6].to_vec(),
        vec![n(0, 1, 0), n(0, 0, -1), n(-1, 0, 0), n(0, 0, -1), n(-1, 0, 0), n(0, -1, 0)]
    );
    // node 2 at (1000, 1000): sides on z = 1000 and x = 1000
    assert_eq!(
        mesh.normals[12..18].to_vec(),
        vec![n(0, 1, 0), n(0, 0, 1), n(1, 0, 0), n(0, 0, 1), n(1, 0, 0), n(0, -1, 0)]
    );
}

fn check_mesh_shape(shape: BaseShape, nodes: usize) {
    let (base, mesh) = shape.create().expect("preset shape triangulates");
    assert_eq!(base.nodes.len(), nodes);
    assert_eq!(mesh.vertices.len(), 6 * nodes);
    assert_eq!(mesh.normals.len(), 6 * nodes);
    assert_eq!(mesh.indices.len(), 12 * nodes - 12);
    assert!(mesh.indices.iter().all(|&i| (i as usize) < 6 * nodes));
    // top and bottom faces: vertex 0 and 5 of each node
    let faces = &mesh.indices[6 * nodes..];
    for tri in faces.chunks(6) {
        assert!(tri[0..3].iter().all(|&i| i % 6 == 0));
        assert!(tri[3..6].iter().all(|&i| i % 6 == 5));
    }
}

#[test]
fn l_shape_mesh() {
    check_mesh_shape(BaseShape::L, 6);
    let (base, _) = BaseShape::L.create().unwrap();
    let p = base.nodes.positions();
    assert_eq!(p[0].x, -7500);
    assert_eq!(p[0].z, -5000);
    assert_eq!(p[2].x, 0);
    assert_eq!(p[3].z, 0);
    assert_eq!(p[5].x, 7500);
    assert_eq!(p[5].z, -5000);
}

#[test]
fn n_shape_mesh() {
    check_mesh_shape(BaseShape::N, 8);
    let (base, _) = BaseShape::N.create().unwrap();
    let p = base.nodes.positions();
    assert_eq!(p[3].x, 2500);
    assert_eq!(p[4].z, 1666);
    assert_eq!(p[5].x, -2500);
    assert_eq!(p[6].z, 5000);
    assert_eq!(p[7].x, -7500);
}

#[test]
fn counter_clockwise_rectangle_builds() {
    let builder = Base::builder()
        .start_point(-1000, -1000)
        .move_z_to(1000)
        .move_x_to(1000)
        .move_z_to(-1000);
    let (base, mesh) = builder.build().expect("rectangle triangulates");
    assert_eq!(base.convex_turn, Turn::CounterClockwise);
    assert_eq!(mesh.indices.len(), 36);
}

#[test]
fn update_rebuilds_after_move() {
    let (mut base, mesh) = BaseShape::Rectangle.create().unwrap();
    let again = base.update().expect("update triangulates");
    assert_eq!(again.indices, mesh.indices);
    assert_eq!(again.vertices, mesh.vertices);
    assert!(MAX_NODES > 8);
}

#[test]
fn outline_closing_on_its_start_never_triangulates() {
    // The fifth node lands on the first: every ear holds a node on its
    // border, so no ear is ever cut.
    let builder = Base::builder()
        .start_point(0, 0)
        .move_x_to(1000)
        .move_z_to(1000)
        .move_x_to(0)
        .move_z_to(0);
    assert!(builder.build().is_none());
}

#[test]
fn drawn_outlines_have_right_angles() {
    let (base, _) = BaseShape::N.create().unwrap();
    let p = base.nodes.positions();
    for i in 0..p.len() - 1 {
        let along_x = p[i].z == p[i + 1].z;
        if along_x {
            assert!((p[i + 1].x - p[i].x).abs() >= 300);
        } else {
            assert_eq!(p[i].x, p[i + 1].x);
            assert!((p[i + 1].z - p[i].z).abs() >= 300);
        }
        if i + 2 < p.len() {
            assert_ne!(along_x, p[i + 1].z == p[i + 2].z);
        }
    }
}

fn cross(a: (i64, i64), b: (i64, i64), c: (i64, i64)) -> i64 {
    (b.0 - a.0) * (c.1 - a.1) - (b.1 - a.1) * (c.0 - a.0)
}

/// The faces of a built outline: top and bottom pairs on different nodes,
/// the bottom wound against the top, and the top areas add up to the
/// outline's shoelace area (signed by the convex turn).
fn check_faces(base: &rooft::builder::Base, indices: &[u32]) -> i64 {
    let p: Vec<(i64, i64)> =
        base.nodes.positions().iter().map(|q| (q.x as i64, q.z as i64)).collect();
    let n = p.len();
    let faces = &indices[6 * n..];
    assert_eq!(faces.len(), 6 * (n - 2));
    let mut up = 0i64;
    for g in faces.chunks(6) {
        let (a, b, c) = (g[0], g[1], g[2]);
        assert!(a % 6 == 0 && b % 6 == 0 && c % 6 == 0);
        assert!(a != b && b != c && a != c);
        assert_eq!((g[3], g[4], g[5]), (a + 5, c + 5, b + 5));
        let t = -cross(p[(a / 6) as usize], p[(b / 6) as usize], p[(c / 6) as usize]);
        assert!(t > 0, "every top triangle of these outlines faces up");
        up += t;
    }
    let mut area = 0i64;
    for i in 0..n {
        let (a, b) = (p[i], p[(i + 1) % n]);
        area += a.0 * b.1 - a.1 * b.0;
    }
    let sign = if base.convex_turn == Turn::Clockwise { 1 } else { -1 };
    assert_eq!(up, sign * area);
    up
}

#[test]
fn faces_triangulate_the_outlines() {
    for shape in [BaseShape::Rectangle, BaseShape::L, BaseShape::N] {
        let (base, mesh) = shape.create().unwrap();
        check_faces(&base, &mesh.indices);
    }
    let (base, mesh) = Base::builder()
        .start_point(-1000, -1000)
        .move_z_to(1000)
        .move_x_to(1000)
        .move_z_to(-1000)
        .build()
        .unwrap();
    check_faces(&base, &mesh.indices);
    // the rectangle is 15000 by 10000: its two top triangles make up twice
    // that area
    let (base, mesh) = BaseShape::Rectangle.create().unwrap();
    assert_eq!(check_faces(&base, &mesh.indices), 2 * 15000 * 10000);
}

#[test]
fn built_bases_hold_the_turns_of_their_corners() {
    for shape in [BaseShape::Rectangle, BaseShape::L, BaseShape::N] {
        let (base, _) = shape.create().unwrap();
        let p: Vec<(i64, i64)> =
            base.nodes.positions().iter().map(|q| (q.x as i64, q.z as i64)).collect();
        let n = p.len();
        for i in 0..n {
            let c = cross(p[(i + n - 1) % n], p[i], p[(i + 1) % n]);
            let expected = if c > 0 { Turn::Clockwise } else { Turn::CounterClockwise };
            assert_eq!(base.nodes.get(i).turn, expected, "{:?} node {}", shape, i);
        }
    }
}

#[test]
fn a_crossing_outline_keeps_the_area_law_but_not_every_winding() {
    // the closing edge from (0, 2000) to (0, 0) crosses nothing, but the
    // edge from (2000, 2000) to (0, 2000) crosses the one from (1000, 0)
    // to (1000, 3000): the outline is not simple
    let (base, mesh) = Base::builder()
        .start_point(0, 0)
        .move_x_to(1000)
        .move_z_to(3000)
        .move_x_to(2000)
        .move_z_to(2000)
        .move_x_to(0)
        .build()
        .expect("this outline triangulates");
    // the areas still add up to the outline's
    check_faces_sum(&base, &mesh.indices);
    // but some top triangle faces down
    let p: Vec<(i64, i64)> =
        base.nodes.positions().iter().map(|q| (q.x as i64, q.z as i64)).collect();
    let faces = &mesh.indices[6 * p.len()..];
    assert!(faces
        .chunks(6)
        .any(|g| -cross(p[(g[0] / 6) as usize], p[(g[1] / 6) as usize], p[(g[2] / 6) as usize]) < 0));
}

fn check_faces_sum(base: &rooft::builder::Base, indices: &[u32]) {
    let p: Vec<(i64, i64)> =
        base.nodes.positions().iter().map(|q| (q.x as i64, q.z as i64)).collect();
    let n = p.len();
    let faces = &indices[6 * n..];
    assert_eq!(faces.len(), 6 * (n - 2));
    let up: i64 = faces
        .chunks(6)
        .map(|g| -cross(p[(g[0] / 6) as usize], p[(g[1] / 6) as usize], p[(g[2] / 6) as usize]))
        .sum();
    let area: i64 = (0..n).map(|i| p[i].0 * p[(i + 1) % n].1 - p[i].1 * p[(i + 1) % n].0).sum();
    let sign = if base.convex_turn == Turn::Clockwise { 1 } else { -1 };
    assert_eq!(up, sign * area);
}
