//! Cross-sections: which edges of a mesh pass through a cutting plane.
use vstd::prelude::*;
use crate::scalar::{lemma_strictly_between_has_span, Scalar};
use crate::mesh::{coordinate, Axis, Crossing, Line, Mesh, Slice, Triangle, Vertex};

verus! {

/// The two ends of `line` lie strictly on opposite sides of the plane
/// `axis = offset`. An end that lies in the plane is on neither side.
pub open spec fn straddles(line: Line, axis: Axis, offset: Scalar) -> bool {
    let from = coordinate(line.0, axis);
    let to = coordinate(line.1, axis);
    from.lt(offset) && offset.lt(to) || offset.lt(from) && to.lt(offset)
}

/// The span of `line` along `axis` is exactly zero.
pub open spec fn spanless(line: Line, axis: Axis) -> bool {
    coordinate(line.0, axis).no_span_to(coordinate(line.1, axis))
}

/// Interpolating along `line` towards a plane perpendicular to `axis`
/// divides by the line's spans along the runs of the axis's scheme. The
/// crossing collapses when either of them is exactly zero.
pub open spec fn collapses(line: Line, axis: Axis) -> bool {
    ||| spanless(line, axis.scheme_of().first.run)
    ||| spanless(line, axis.scheme_of().second.run)
}

/// The crossing that `line` makes with the plane `axis = offset`.
pub open spec fn crossing_of(line: Line, axis: Axis, offset: Scalar) -> Crossing {
    Crossing { edge: line, axis: axis, offset: offset, collapsed: collapses(line, axis) }
}

/// What one edge contributes to a slice: its crossing if it straddles the
/// plane, nothing otherwise.
pub open spec fn line_crossings(line: Line, axis: Axis, offset: Scalar) -> Seq<Crossing> {
    if straddles(line, axis, offset) {
        seq![crossing_of(line, axis, offset)]
    } else {
        Seq::empty()
    }
}

/// What one triangle contributes: the crossings of its three edges, in edge
/// order.
pub open spec fn triangle_crossings(t: Triangle, axis: Axis, offset: Scalar) -> Seq<Crossing> {
    line_crossings(t.lines[0], axis, offset) + line_crossings(t.lines[1], axis, offset)
        + line_crossings(t.lines[2], axis, offset)
}

/// The slice of a sequence of triangles: each triangle's crossings, in
/// triangle order.
pub open spec fn mesh_crossings(triangles: Seq<Triangle>, axis: Axis, offset: Scalar) -> Seq<
    Crossing,
>
    decreases triangles.len(),
{
    if triangles.len() == 0 {
        Seq::empty()
    } else {
        mesh_crossings(triangles.drop_last(), axis, offset) + triangle_crossings(
            triangles.last(),
            axis,
            offset,
        )
    }
}

/// Tests one edge against the plane.
pub fn line_straddles(line: &Line, axis: Axis, offset: Scalar) -> (r: bool)
    ensures
        r == straddles(*line, axis, offset),
{
    let k = axis.position();
    let from = line.0[k];
    let to = line.1[k];
    from.less_than(&offset) && offset.less_than(&to) || offset.less_than(&from) && to.less_than(
        &offset,
    )
}

/// Decides whether the crossing of `line` collapses onto its start.
pub fn line_collapses(line: &Line, axis: Axis) -> (r: bool)
    ensures
        r == collapses(*line, axis),
{
    let scheme = axis.scheme();
    let k = scheme.first.run.position();
    let l = scheme.second.run.position();
    line.0[k].spans_nothing_to(&line.1[k]) || line.0[l].spans_nothing_to(&line.1[l])
}

impl Triangle {
    /// The crossings of this triangle's edges with the plane `axis = offset`.
    pub fn intersects(&self, axis: Axis, offset: Scalar) -> (r: Vec<Crossing>)
        ensures
            r@ == triangle_crossings(*self, axis, offset),
    {
        let mut found: Vec<Crossing> = Vec::new();
        let mut i: usize = 0;
        while i < 3
            invariant
                i <= 3,
                i == 0 ==> found@ == Seq::<Crossing>::empty(),
                i == 1 ==> found@ == line_crossings(self.lines[0], axis, offset),
                i == 2 ==> found@ == line_crossings(self.lines[0], axis, offset) + line_crossings(
                    self.lines[1],
                    axis,
                    offset,
                ),
                i == 3 ==> found@ == triangle_crossings(*self, axis, offset),
            decreases 3 - i,
        {
            let ghost before = found@;
            let line = self.lines[i];
            if line_straddles(&line, axis, offset) {
                let collapsed = line_collapses(&line, axis);
                found.push(Crossing { edge: line, axis, offset, collapsed });
            }
            assert(found@ =~= before + line_crossings(self.lines[i as int], axis, offset));
            i += 1;
        }
        found
    }

    /// The crossings with the plane `x = x`.
    pub fn intersects_x(&self, x: Scalar) -> (r: Vec<Crossing>)
        ensures
            r@ == triangle_crossings(*self, Axis::X, x),
    {
        self.intersects(Axis::X, x)
    }

    /// The crossings with the plane `y = y`.
    pub fn intersects_y(&self, y: Scalar) -> (r: Vec<Crossing>)
        ensures
            r@ == triangle_crossings(*self, Axis::Y, y),
    {
        self.intersects(Axis::Y, y)
    }

    /// The crossings with the plane `z = z`.
    pub fn intersects_z(&self, z: Scalar) -> (r: Vec<Crossing>)
        ensures
            r@ == triangle_crossings(*self, Axis::Z, z),
    {
        self.intersects(Axis::Z, z)
    }
}

impl Mesh {
    /// Cuts the mesh with the plane `axis = offset`: every triangle, in
    /// order, contributes the crossings of its edges.
    pub fn slice(&self, axis: Axis, offset: Scalar) -> (s: Slice)
        ensures
            s@ == mesh_crossings(self.triangles@, axis, offset),
            self.triangles@.len() == 0 ==> s@.len() == 0,
            forall|i: int|
                0 <= i < s@.len() ==> {
                    &&& (#[trigger] s@[i]).axis == axis
                    &&& s@[i].offset == offset
                    &&& s@[i].anchor_coordinate(axis) == offset
                    &&& straddles(s@[i].edge, axis, offset)
                    &&& s@[i].collapsed == collapses(s@[i].edge, axis)
                },
    {
        let mut slice: Slice = Vec::new();
        let mut i: usize = 0;
        while i < self.triangles.len()
            invariant
                i <= self.triangles@.len(),
                slice@ == mesh_crossings(self.triangles@.take(i as int), axis, offset),
            decreases self.triangles@.len() - i,
        {
            let mut found = self.triangles[i].intersects(axis, offset);
            proof {
                let next = self.triangles@.take(i + 1);
                assert(next.drop_last() =~= self.triangles@.take(i as int));
                assert(next.last() == self.triangles@[i as int]);
            }
            slice.append(&mut found);
            i += 1;
        }
        proof {
            assert(self.triangles@.take(i as int) =~= self.triangles@);
            lemma_crossings_lie_in_plane(self.triangles@, axis, offset);
        }
        slice
    }
}

/// Every crossing of a slice lies in the cutting plane: it carries the
/// plane's axis and offset, and its point has the offset as its coordinate
/// along that axis. Its edge straddles the plane, and it is marked as
/// collapsed exactly when a divisor span of its edge is zero.
pub proof fn lemma_crossings_lie_in_plane(triangles: Seq<Triangle>, axis: Axis, offset: Scalar)
    ensures
        forall|i: int|
            0 <= i < mesh_crossings(triangles, axis, offset).len() ==> {
                let c = #[trigger] mesh_crossings(triangles, axis, offset)[i];
                &&& c.axis == axis
                &&& c.offset == offset
                &&& c.anchor_coordinate(axis) == offset
                &&& straddles(c.edge, axis, offset)
                &&& c.collapsed == collapses(c.edge, axis)
            },
    decreases triangles.len(),
{
    if triangles.len() > 0 {
        lemma_crossings_lie_in_plane(triangles.drop_last(), axis, offset);
    }
}

/// A mesh without triangles has an empty slice, whatever the plane.
pub proof fn lemma_empty_mesh_empty_slice(axis: Axis, offset: Scalar)
    ensures
        mesh_crossings(Seq::<Triangle>::empty(), axis, offset) == Seq::<Crossing>::empty(),
{
}

/// A triangle that lies on one side of the plane contributes nothing: if
/// all three vertices have a coordinate along `axis` of at least `offset`,
/// or all three of at most `offset`, none of its edges crosses.
pub proof fn lemma_one_sided_triangle_has_no_crossing(t: Triangle, axis: Axis, offset: Scalar)
    requires
        t.wf(),
        (forall|k: int| 0 <= k < 3 ==> offset.le(coordinate(#[trigger] t.vertices[k], axis)))
            || (forall|k: int|
            0 <= k < 3 ==> coordinate(#[trigger] t.vertices[k], axis).le(offset)),
    ensures
        triangle_crossings(t, axis, offset) == Seq::<Crossing>::empty(),
{
    assert(!straddles(t.lines[0], axis, offset));
    assert(!straddles(t.lines[1], axis, offset));
    assert(!straddles(t.lines[2], axis, offset));
    assert(triangle_crossings(t, axis, offset) =~= Seq::<Crossing>::empty());
}

/// Triangles are cut independently of one another: the slice of two runs
/// of triangles, one after the other, is the slice of the first followed by
/// the slice of the second.
pub proof fn lemma_slice_distributes(
    front: Seq<Triangle>,
    back: Seq<Triangle>,
    axis: Axis,
    offset: Scalar,
)
    ensures
        mesh_crossings(front + back, axis, offset) == mesh_crossings(front, axis, offset)
            + mesh_crossings(back, axis, offset),
    decreases back.len(),
{
    if back.len() == 0 {
        assert(front + back =~= front);
        assert(mesh_crossings(front, axis, offset) + mesh_crossings(back, axis, offset)
            =~= mesh_crossings(front, axis, offset));
    } else {
        lemma_slice_distributes(front, back.drop_last(), axis, offset);
        assert((front + back).drop_last() =~= front + back.drop_last());
        assert((front + back).last() == back.last());
        assert(mesh_crossings(front + back, axis, offset) =~= mesh_crossings(front, axis, offset)
            + mesh_crossings(back, axis, offset));
    }
}

/// A triangle without a crossing can be taken out of a mesh, wherever it
/// stands, without changing the slice.
pub proof fn lemma_one_sided_triangle_adds_nothing(
    front: Seq<Triangle>,
    t: Triangle,
    back: Seq<Triangle>,
    axis: Axis,
    offset: Scalar,
)
    requires
        triangle_crossings(t, axis, offset) == Seq::<Crossing>::empty(),
    ensures
        mesh_crossings(front.push(t) + back, axis, offset) == mesh_crossings(
            front + back,
            axis,
            offset,
        ),
{
    lemma_slice_distributes(front.push(t), back, axis, offset);
    lemma_slice_distributes(front, back, axis, offset);
    assert(front.push(t).drop_last() =~= front);
    assert(mesh_crossings(front.push(t), axis, offset) =~= mesh_crossings(front, axis, offset));
}

/// An edge that straddles the plane and has a zero span along x yields a
/// collapsed crossing, whose point is the edge's start on the two axes of
/// the plane and the plane's offset on the cut axis. The span along the cut
/// axis itself is never zero for an edge that straddles.
pub proof fn lemma_zero_span_collapses(line: Line, axis: Axis, offset: Scalar)
    requires
        straddles(line, axis, offset),
    ensures
        !spanless(line, axis),
        line_crossings(line, axis, offset).len() == 1,
        line_crossings(line, axis, offset)[0].collapsed == spanless(line, Axis::X),
        forall|along: Axis|
            #[trigger] line_crossings(line, axis, offset)[0].anchor_coordinate(along) == (if along
                == axis {
                offset
            } else {
                coordinate(line.0, along)
            }),
{
    lemma_strictly_between_has_span(
        coordinate(line.0, axis),
        offset,
        coordinate(line.1, axis),
    );
}

} // verus!
