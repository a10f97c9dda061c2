//! The preset base outlines.
use vstd::prelude::*;
use crate::builder::{
    Base, spec_from_triangle, spec_insert, spec_line, spec_move_x, spec_move_z, spec_triangle,
};
use crate::geometry::Position;
use crate::presets::lemma_presets_triangulate;
use crate::mesh::{BaseMesh, spec_build_finishes, spec_build_ok};
use crate::nodes::Node;

verus! {

/// Half the default length (mm) of a base along x.
pub const HALF_SIZE_X: i32 = 7500;

/// Half the default length (mm) of a base along z.
pub const HALF_SIZE_Z: i32 = 5000;

/// The preset outlines a base can be spawned with.
#[derive(Clone, Copy, Debug, PartialEq, Eq, Structural)]
pub enum BaseShape {
    Rectangle,
    L,
    N,
}

/// The position of the last node.
pub open spec fn last_pos(nodes: Seq<Node>) -> Position {
    nodes[nodes.len() - 1].position
}

/// A new node at the given x, from the last node (kept at least the minimum
/// distance away).
pub open spec fn x_to(nodes: Seq<Node>, x: int) -> Position {
    spec_move_x(last_pos(nodes), x - last_pos(nodes).x)
}

/// A new node at the given z, from the last node (kept at least the minimum
/// distance away).
pub open spec fn z_to(nodes: Seq<Node>, z: int) -> Position {
    spec_move_z(last_pos(nodes), z - last_pos(nodes).z)
}

/// A polygon state: the nodes and the clockwise and counter clockwise lists.
pub type PolygonState = (Seq<Node>, Seq<usize>, Seq<usize>);

/// The polygon state with a node appended at `p`.
pub open spec fn then_insert(st: PolygonState, p: Position) -> PolygonState {
    spec_insert(st.0, st.1, st.2, p)
}

/// The polygon state of the shape's outline, before triangulation.
pub open spec fn spec_shape_state(shape: BaseShape) -> PolygonState {
    let x = HALF_SIZE_X as int;
    let z = HALF_SIZE_Z as int;
    let p0 = Position { x: -HALF_SIZE_X as i32, z: -HALF_SIZE_Z as i32 };
    match shape {
        BaseShape::Rectangle => {
            let l = spec_line(p0, spec_move_x(p0, x - p0.x));
            let t = spec_triangle(l, z_to(l, z));
            spec_from_triangle(t, x_to(t, -x))
        },
        BaseShape::L => {
            let l = spec_line(p0, spec_move_z(p0, z - p0.z));
            let t = spec_triangle(l, x_to(l, 0));
            let st = spec_from_triangle(t, z_to(t, 0));
            let st = then_insert(st, x_to(st.0, x));
            then_insert(st, z_to(st.0, -z))
        },
        BaseShape::N => {
            let a = x / 3;
            let b = z / 3;
            let l = spec_line(p0, spec_move_x(p0, x - p0.x));
            let t = spec_triangle(l, z_to(l, z));
            let st = spec_from_triangle(t, x_to(t, a));
            let st = then_insert(st, z_to(st.0, b));
            let st = then_insert(st, x_to(st.0, -a));
            let st = then_insert(st, z_to(st.0, z));
            then_insert(st, x_to(st.0, -x))
        },
    }
}

/// `r` is what `build` gives for the polygon state `st`.
pub open spec fn built_from(st: PolygonState, r: Option<(Base, BaseMesh)>) -> bool {
    &&& r is Some == spec_build_finishes(st.0, st.1, st.2)
    &&& r matches Some((base, mesh)) ==> spec_build_ok(st.0, st.1, st.2, base, mesh)
}

fn create_rectangle(x: i32, z: i32) -> (r: Option<(Base, BaseMesh)>)
    requires
        x == HALF_SIZE_X,
        z == HALF_SIZE_Z,
    ensures
        built_from(spec_shape_state(BaseShape::Rectangle), r),
{
    let b = Base::builder().start_point(-x, -z);
    let b = b.move_x_to(x);
    let b = b.move_z_to(z);
    let b = b.move_x_to(-x);
    b.build()
}

#[verifier::rlimit(30)]
fn create_l(x: i32, z: i32) -> (r: Option<(Base, BaseMesh)>)
    requires
        x == HALF_SIZE_X,
        z == HALF_SIZE_Z,
    ensures
        built_from(spec_shape_state(BaseShape::L), r),
{
    let b = Base::builder().start_point(-x, -z);
    let b = b.move_z_to(z);
    let b = b.move_x_to(0);
    let b = b.move_z_to(0);
    let b = b.move_x_to(x);
    let b = b.move_z_to(-z);
    b.build()
}

#[verifier::rlimit(50)]
fn create_n(x: i32, z: i32) -> (r: Option<(Base, BaseMesh)>)
    requires
        x == HALF_SIZE_X,
        z == HALF_SIZE_Z,
    ensures
        built_from(spec_shape_state(BaseShape::N), r),
{
    // The corners of the notch
    let p0 = x / 3;
    let p1 = z / 3;
    let b = Base::builder().start_point(-x, -z);
    let b = b.move_x_to(x);
    let b = b.move_z_to(z);
    let b = b.move_x_to(p0);
    let b = b.move_z_to(p1);
    let b = b.move_x_to(-p0);
    let b = b.move_z_to(z);
    let b = b.move_x_to(-x);
    b.build()
}

impl BaseShape {
    /// Draws the outline of the shape with the default size and builds it;
    /// every preset triangulates.
    ///
    /// The rectangle spans x in [-7500, 7500] and z in [-5000, 5000]; the L
    /// cuts the quarter x > 0, z > 0 out of it; the N cuts a notch from the
    /// z = 5000 side down to z = 1666 between x = -2500 and x = 2500 (a third
    /// of the half sizes, rounded toward zero).
    pub fn create(&self) -> (r: Option<(Base, BaseMesh)>)
        ensures
            built_from(spec_shape_state(*self), r),
            r is Some,
    {
        proof {
            lemma_presets_triangulate(*self);
        }
        match self {
            BaseShape::Rectangle => create_rectangle(HALF_SIZE_X, HALF_SIZE_Z),
            BaseShape::L => create_l(HALF_SIZE_X, HALF_SIZE_Z),
            BaseShape::N => create_n(HALF_SIZE_X, HALF_SIZE_Z),
        }
    }
}

} // verus!
