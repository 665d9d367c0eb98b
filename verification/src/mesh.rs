//! The mesh data model: vertices, directed edges, triangles and meshes.
use vstd::prelude::*;
use crate::scalar::Scalar;

verus! {

/// A point: its x, y and z coordinates, in that order.
pub type Vertex = [Scalar; 3];

/// A directed edge, from its first vertex to its second.
pub type Line = (Vertex, Vertex);

/// What a cutting plane yields: one crossing for each edge that passes
/// through the plane, in the order in which the edges were visited. A shared
/// edge of two triangles appears once for each.
pub type Slice = Vec<Crossing>;

/// The coordinate axis that a cutting plane is perpendicular to.
#[derive(Debug, Clone, Copy, PartialEq, Eq, Structural)]
pub enum Axis {
    X,
    Y,
    Z,
}

/// Three vertices and the three directed edges that join them in winding
/// order.
#[derive(Debug, Clone, Copy)]
pub struct Triangle {
    pub vertices: [Vertex; 3],
    pub lines: [Line; 3],
}

/// An ordered collection of triangles.
#[derive(Debug, Clone)]
pub struct Mesh {
    pub triangles: Vec<Triangle>,
}

/// An edge that passes through the cutting plane `axis = offset`.
///
/// The point of intersection has `offset` as its coordinate along `axis`.
/// Its other two coordinates are those of the edge's start plus the terms of
/// the axis's [`Scheme`]. Where `collapsed` is set, a term would divide by a
/// span of exactly zero; both terms are then defined to be zero, and the
/// point is the edge's start moved into the plane ([`Crossing::anchor`]).
#[derive(Debug, Clone, Copy)]
pub struct Crossing {
    pub edge: Line,
    pub axis: Axis,
    pub offset: Scalar,
    pub collapsed: bool,
}

/// One offset of an interpolated point from the start of its edge: a factor
/// times the edge's span along `target` divided by its span along `run`. It
/// is added to the start's coordinate along `target`.
#[derive(Debug, Clone, Copy, PartialEq, Eq, Structural)]
pub struct Term {
    pub target: Axis,
    pub run: Axis,
}

/// How the point at which an edge meets a plane is interpolated. The factor
/// of the first term is the plane's offset, the factor of the second term is
/// the value of the first.
#[derive(Debug, Clone, Copy, PartialEq, Eq, Structural)]
pub struct Scheme {
    pub first: Term,
    pub second: Term,
}

impl Axis {
    /// The interpolation used for a plane perpendicular to this axis. The
    /// three schemes are not permutations of one another: the first term
    /// always runs along the cut axis, the second always along x.
    pub open spec fn scheme_of(self) -> Scheme {
        match self {
            Axis::X => Scheme {
                first: Term { target: Axis::Z, run: Axis::X },
                second: Term { target: Axis::Y, run: Axis::X },
            },
            Axis::Y => Scheme {
                first: Term { target: Axis::X, run: Axis::Y },
                second: Term { target: Axis::Z, run: Axis::X },
            },
            Axis::Z => Scheme {
                first: Term { target: Axis::X, run: Axis::Z },
                second: Term { target: Axis::Y, run: Axis::X },
            },
        }
    }

    /// The interpolation used for a plane perpendicular to this axis. Its
    /// two terms go to the two axes of the plane.
    pub fn scheme(&self) -> (s: Scheme)
        ensures
            s == self.scheme_of(),
            s.first.run == *self,
            s.second.run == Axis::X,
            s.first.target != *self,
            s.second.target != *self,
            s.first.target != s.second.target,
    {
        match self {
            Axis::X => Scheme {
                first: Term { target: Axis::Z, run: Axis::X },
                second: Term { target: Axis::Y, run: Axis::X },
            },
            Axis::Y => Scheme {
                first: Term { target: Axis::X, run: Axis::Y },
                second: Term { target: Axis::Z, run: Axis::X },
            },
            Axis::Z => Scheme {
                first: Term { target: Axis::X, run: Axis::Z },
                second: Term { target: Axis::Y, run: Axis::X },
            },
        }
    }

    /// Position of this axis's coordinate in a vertex.
    pub open spec fn index(self) -> int {
        match self {
            Axis::X => 0,
            Axis::Y => 1,
            Axis::Z => 2,
        }
    }

    pub fn position(&self) -> (r: usize)
        ensures
            r == self.index(),
            r < 3,
    {
        match self {
            Axis::X => 0,
            Axis::Y => 1,
            Axis::Z => 2,
        }
    }
}

/// The coordinate of `v` along `axis`.
pub open spec fn coordinate(v: Vertex, axis: Axis) -> Scalar {
    v[axis.index()]
}

impl Triangle {
    /// The edges are the ones that the vertices determine: from the first
    /// vertex to the second, from the second to the third, and from the
    /// third back to the first.
    pub open spec fn wf(&self) -> bool {
        &&& self.lines[0] == (self.vertices[0], self.vertices[1])
        &&& self.lines[1] == (self.vertices[1], self.vertices[2])
        &&& self.lines[2] == (self.vertices[2], self.vertices[0])
    }

    /// The triangle on three vertices.
    pub open spec fn on(vertices: [Vertex; 3]) -> Triangle {
        Triangle {
            vertices: vertices,
            lines: [
                (vertices[0], vertices[1]),
                (vertices[1], vertices[2]),
                (vertices[2], vertices[0]),
            ],
        }
    }

    /// Builds the triangle on three vertices, deriving its edges.
    pub fn new(vertices: [Vertex; 3]) -> (t: Triangle)
        ensures
            t == Triangle::on(vertices),
            t.vertices == vertices,
            t.wf(),
    {
        let line_a = (vertices[0], vertices[1]);
        let line_b = (vertices[1], vertices[2]);
        let line_c = (vertices[2], vertices[0]);
        Triangle { vertices: vertices, lines: [line_a, line_b, line_c] }
    }
}

impl Mesh {
    /// Every triangle's edges are derived from its vertices.
    pub open spec fn wf(&self) -> bool {
        forall|i: int| 0 <= i < self.triangles@.len() ==> (#[trigger] self.triangles@[i]).wf()
    }

    /// The mesh without triangles.
    pub fn new() -> (m: Mesh)
        ensures
            m.triangles@.len() == 0,
            m.wf(),
    {
        Mesh { triangles: Vec::new() }
    }
}

impl Crossing {
    /// Coordinate along `along` of the edge's start moved into the plane:
    /// the plane's offset on the cut axis, the start's own coordinate on the
    /// other two.
    pub open spec fn anchor_coordinate(self, along: Axis) -> Scalar {
        if along == self.axis {
            self.offset
        } else {
            coordinate(self.edge.0, along)
        }
    }

    /// The edge's start moved into the plane. This is the point of
    /// intersection of a collapsed crossing.
    pub fn anchor(&self) -> (p: Vertex)
        ensures
            p[0] == self.anchor_coordinate(Axis::X),
            p[1] == self.anchor_coordinate(Axis::Y),
            p[2] == self.anchor_coordinate(Axis::Z),
            coordinate(p, self.axis) == self.offset,
    {
        let start = self.edge.0;
        match self.axis {
            Axis::X => [self.offset, start[1], start[2]],
            Axis::Y => [start[0], self.offset, start[2]],
            Axis::Z => [start[0], start[1], self.offset],
        }
    }
}

} // verus!
