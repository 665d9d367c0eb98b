use stl_mesh::tokens::tokenize;
use stl_mesh::{Axis, Crossing, Mesh, Scalar, Scheme, Term, Triangle, Vertex};

fn flt(v: f32) -> Scalar {
    Scalar::from_bits(v.to_bits())
}

fn point(x: f32, y: f32, z: f32) -> Vertex {
    [flt(x), flt(y), flt(z)]
}

fn load(text: &str) -> Mesh {
    let numbers: Vec<Option<Scalar>> = tokenize(text)
        .iter()
        .map(|t| t.iter().collect::<String>().parse::<f32>().ok().map(flt))
        .collect();
    Mesh::from_ascii(text.to_string(), &numbers).unwrap()
}

fn edges(found: &Vec<Crossing>) -> Vec<(Vertex, Vertex)> {
    found.iter().map(|c| c.edge).collect()
}

const TETRAHEDRON: &str = "solid tetra
facet normal 0 0 0 outer loop vertex -1 -1 -1 vertex 1 -1 -1 vertex 0 1 -1 endloop endfacet
facet normal 0 0 0 outer loop vertex -1 -1 -1 vertex 1 -1 -1 vertex 0 0 1 endloop endfacet
facet normal 0 0 0 outer loop vertex 1 -1 -1 vertex 0 1 -1 vertex 0 0 1 endloop endfacet
facet normal 0 0 0 outer loop vertex 0 1 -1 vertex -1 -1 -1 vertex 0 0 1 endloop endfacet
endsolid tetra
";

#[test]
fn empty_mesh_has_an_empty_slice() {
    let mesh = Mesh::new();
    for axis in [Axis::X, Axis::Y, Axis::Z] {
        for offset in [0.0, -3.5, f32::INFINITY, f32::NAN] {
            assert_eq!(mesh.slice(axis, flt(offset)).len(), 0);
        }
    }
}

#[test]
fn one_facet_cut_along_z() {
    let mesh = load("facet outer loop vertex 0 0 -1 vertex 0 0 1 vertex 1 0 0 endloop endfacet");
    assert_eq!(mesh.triangles.len(), 1);
    let found = mesh.slice(Axis::Z, flt(0.0));
    assert_eq!(found.len(), 1);
    assert_eq!(found[0].edge, (point(0.0, 0.0, -1.0), point(0.0, 0.0, 1.0)));
    assert_eq!(found[0].axis, Axis::Z);
    assert_eq!(found[0].offset, flt(0.0));
    assert!(found[0].collapsed);
    assert_eq!(found[0].anchor(), point(0.0, 0.0, 0.0));
}

#[test]
fn every_crossing_lies_in_the_plane() {
    let mesh = load(TETRAHEDRON);
    for (axis, k) in [(Axis::X, 0), (Axis::Y, 1), (Axis::Z, 2)] {
        for offset in [-0.5, 0.0, 0.25, 0.75] {
            let found = mesh.slice(axis, flt(offset));
            assert!(found.len() > 0);
            for c in &found {
                assert_eq!(c.axis, axis);
                assert_eq!(c.offset, flt(offset));
                assert_eq!(c.anchor()[k], flt(offset));
            }
        }
    }
}

#[test]
fn triangle_on_one_side_yields_nothing() {
    let t = Triangle::new([point(0.0, 1.0, 2.0), point(3.0, 1.0, 5.0), point(0.5, 4.0, 2.0)]);
    assert_eq!(t.intersects_x(flt(0.0)).len(), 0);
    assert_eq!(t.intersects_x(flt(3.0)).len(), 0);
    assert_eq!(t.intersects_x(flt(-1.0)).len(), 0);
    assert_eq!(t.intersects_y(flt(1.0)).len(), 0);
    assert_eq!(t.intersects_y(flt(4.0)).len(), 0);
    assert_eq!(t.intersects_z(flt(2.0)).len(), 0);
    assert_eq!(t.intersects_z(flt(5.0)).len(), 0);
    assert_eq!(t.intersects_z(flt(9.0)).len(), 0);
}

#[test]
fn an_end_in_the_plane_is_no_crossing() {
    let t = Triangle::new([point(0.0, 0.0, -1.0), point(0.0, 0.0, 0.0), point(1.0, 0.0, 1.0)]);
    let found = t.intersects_z(flt(0.0));
    assert_eq!(edges(&found), vec![(point(1.0, 0.0, 1.0), point(0.0, 0.0, -1.0))]);
}

#[test]
fn the_cut_axis_decides_the_crossing() {
    let t = Triangle::new([point(-1.0, 5.0, 5.0), point(1.0, 5.0, 5.0), point(0.0, 6.0, 5.0)]);
    let found = t.intersects_x(flt(0.5));
    assert_eq!(
        edges(&found),
        vec![
            (point(-1.0, 5.0, 5.0), point(1.0, 5.0, 5.0)),
            (point(1.0, 5.0, 5.0), point(0.0, 6.0, 5.0)),
        ]
    );
    assert!(!found[0].collapsed);
    assert!(!found[1].collapsed);
    assert_eq!(t.intersects_z(flt(0.5)).len(), 0);
    assert_eq!(t.intersects_y(flt(5.5)).len(), 2);
}

#[test]
fn crossings_come_in_edge_order() {
    let t = Triangle::new([point(0.0, 0.0, -1.0), point(2.0, 0.0, 1.0), point(4.0, 0.0, -3.0)]);
    let found = t.intersects_z(flt(0.0));
    assert_eq!(
        edges(&found),
        vec![
            (point(0.0, 0.0, -1.0), point(2.0, 0.0, 1.0)),
            (point(2.0, 0.0, 1.0), point(4.0, 0.0, -3.0)),
        ]
    );
    let down = t.intersects_z(flt(-2.0));
    assert_eq!(
        edges(&down),
        vec![
            (point(2.0, 0.0, 1.0), point(4.0, 0.0, -3.0)),
            (point(4.0, 0.0, -3.0), point(0.0, 0.0, -1.0)),
        ]
    );
}

#[test]
fn zero_span_collapses_onto_the_start() {
    let t = Triangle::new([point(1.0, -1.0, 5.0), point(1.0, 1.0, 7.0), point(3.0, 2.0, 9.0)]);
    let found = t.intersects_y(flt(0.0));
    assert_eq!(found.len(), 2);
    assert_eq!(found[0].edge, (point(1.0, -1.0, 5.0), point(1.0, 1.0, 7.0)));
    assert!(found[0].collapsed);
    assert_eq!(found[0].anchor(), point(1.0, 0.0, 5.0));
    assert_eq!(found[1].edge, (point(3.0, 2.0, 9.0), point(1.0, -1.0, 5.0)));
    assert!(!found[1].collapsed);
    let other = t.intersects_y(flt(1.5));
    assert_eq!(other.len(), 2);
    assert!(!other[0].collapsed);
    assert!(!other[1].collapsed);
    assert_eq!(other[0].anchor(), point(1.0, 1.5, 7.0));
    assert_eq!(other[1].anchor(), point(3.0, 1.5, 9.0));
}

#[test]
fn anchor_keeps_the_start_off_the_cut_axis() {
    let edge = (point(1.0, 2.0, 3.0), point(4.0, 5.0, 6.0));
    let along_x = Crossing { edge, axis: Axis::X, offset: flt(2.5), collapsed: false };
    let along_y = Crossing { edge, axis: Axis::Y, offset: flt(2.5), collapsed: false };
    let along_z = Crossing { edge, axis: Axis::Z, offset: flt(4.5), collapsed: false };
    assert_eq!(along_x.anchor(), point(2.5, 2.0, 3.0));
    assert_eq!(along_y.anchor(), point(1.0, 2.5, 3.0));
    assert_eq!(along_z.anchor(), point(1.0, 2.0, 4.5));
}

#[test]
fn nan_offset_crosses_nothing() {
    let mesh = load(TETRAHEDRON);
    for axis in [Axis::X, Axis::Y, Axis::Z] {
        assert_eq!(mesh.slice(axis, flt(f32::NAN)).len(), 0);
    }
}

#[test]
fn slice_joins_the_triangles_in_order() {
    let mesh = load(TETRAHEDRON);
    let found = mesh.slice(Axis::Z, flt(0.0));
    let mut expected: Vec<Crossing> = Vec::new();
    for t in &mesh.triangles {
        expected.extend(t.intersects_z(flt(0.0)));
    }
    assert_eq!(found.len(), 6);
    assert_eq!(edges(&found), edges(&expected));
    assert_eq!(mesh.triangles[0].intersects_z(flt(0.0)).len(), 0);
    assert_eq!(
        found[0].edge,
        (point(1.0, -1.0, -1.0), point(0.0, 0.0, 1.0))
    );
}

#[test]
fn intersect_x() {
    let found = load(TETRAHEDRON).slice(Axis::X, flt(0.0));
    assert_eq!(found.len(), 2);
    for c in &found {
        assert_eq!(c.axis, Axis::X);
        assert!(!c.collapsed);
    }
}

#[test]
fn intersects_y() {
    let found = load(TETRAHEDRON).slice(Axis::Y, flt(0.0));
    assert_eq!(found.len(), 4);
    for c in &found {
        assert_eq!(c.axis, Axis::Y);
    }
}

#[test]
fn intersects_z() {
    let found = load(TETRAHEDRON).slice(Axis::Z, flt(0.0));
    assert_eq!(found.len(), 6);
    for c in &found {
        assert_eq!(c.axis, Axis::Z);
    }
}

#[test]
fn axis_positions() {
    assert_eq!(Axis::X.position(), 0);
    assert_eq!(Axis::Y.position(), 1);
    assert_eq!(Axis::Z.position(), 2);
}

#[test]
fn schemes_run_along_the_cut_axis_and_then_along_x() {
    assert_eq!(
        Axis::X.scheme(),
        Scheme {
            first: Term { target: Axis::Z, run: Axis::X },
            second: Term { target: Axis::Y, run: Axis::X },
        }
    );
    assert_eq!(
        Axis::Y.scheme(),
        Scheme {
            first: Term { target: Axis::X, run: Axis::Y },
            second: Term { target: Axis::Z, run: Axis::X },
        }
    );
    assert_eq!(
        Axis::Z.scheme(),
        Scheme {
            first: Term { target: Axis::X, run: Axis::Z },
            second: Term { target: Axis::Y, run: Axis::X },
        }
    );
}
