//! The preset outlines triangulate: their ear clipping finishes. Each proof
//! follows the clipping of its outline step by step.
use vstd::prelude::*;
use crate::builder::{spec_calc_turn, spec_from_triangle, spec_line, spec_move_x, spec_move_z, spec_triangle};
use crate::clip::{ClipState, lemma_clip_result, lemma_iter_succ, spec_blocks, spec_clip_iter, spec_clip_step, spec_walk};
use crate::geometry::{Position, spec_turn_cross};
use crate::mesh::{spec_build_finishes, spec_clip_start, spec_convex_list, spec_convex_turn, spec_prepared};
use crate::nodes::{Connection, Node, Turn};
use crate::shape::{BaseShape, HALF_SIZE_X, HALF_SIZE_Z, spec_shape_state, then_insert, x_to, z_to};

verus! {

/// The position `(x, z)`.
pub open spec fn pos(x: i32, z: i32) -> Position {
    Position { x, z }
}

/// A node with the given links, position and turn.
pub open spec fn nd(prev: usize, next: usize, x: i32, z: i32, turn: Turn) -> Node {
    Node { connection: Connection { prev, next }, position: Position { x, z }, turn }
}

/// The rectangle outline triangulates: its ear clipping finishes after 1 steps.
proof fn lemma_rectangle_finishes()
    ensures
        ({
            let st = spec_shape_state(BaseShape::Rectangle);
            spec_build_finishes(st.0, st.1, st.2)
        }),
{
    let st = spec_shape_state(BaseShape::Rectangle);
    let x = HALF_SIZE_X as int;
    let z = HALF_SIZE_Z as int;
    let p0 = Position { x: -HALF_SIZE_X as i32, z: -HALF_SIZE_Z as i32 };
    assert(p0 == pos(-7500i32, -5000i32));
    let l = spec_line(p0, spec_move_x(p0, x - p0.x));
    assert(l =~= seq![nd(1, 1, -7500i32, -5000i32, Turn::Undefined), nd(0, 0, 7500i32, -5000i32, Turn::Undefined)]);
    assert(spec_turn_cross(pos(-7500i32, -5000i32), pos(7500i32, -5000i32), pos(7500i32, 5000i32)) == 150000000) by (nonlinear_arith);
    let t = spec_triangle(l, z_to(l, z));
    assert(t =~= seq![nd(2, 1, -7500i32, -5000i32, Turn::Undefined), nd(0, 2, 7500i32, -5000i32, Turn::Clockwise), nd(1, 0, 7500i32, 5000i32, Turn::Undefined)]);
    assert(spec_turn_cross(pos(7500i32, -5000i32), pos(7500i32, 5000i32), pos(-7500i32, 5000i32)) == 150000000) by (nonlinear_arith);
    let s3 = spec_from_triangle(t, x_to(t, -x));
    assert(s3.0 =~= seq![nd(3, 1, -7500i32, -5000i32, Turn::Undefined), nd(0, 2, 7500i32, -5000i32, Turn::Clockwise), nd(1, 3, 7500i32, 5000i32, Turn::Clockwise), nd(2, 0, -7500i32, 5000i32, Turn::Undefined)]);
    assert(s3.1 =~= seq![1usize, 2usize]);
    assert(s3.2 =~= Seq::<usize>::empty());
    assert(st == s3);
    assert(spec_turn_cross(pos(-7500i32, 5000i32), pos(-7500i32, -5000i32), pos(7500i32, -5000i32)) == 150000000) by (nonlinear_arith);
    let c1 = spec_calc_turn(st.0, st.1, st.2, 0);
    assert(c1.0 =~= seq![nd(3, 1, -7500i32, -5000i32, Turn::Clockwise), nd(0, 2, 7500i32, -5000i32, Turn::Clockwise), nd(1, 3, 7500i32, 5000i32, Turn::Clockwise), nd(2, 0, -7500i32, 5000i32, Turn::Undefined)]);
    assert(c1.1 =~= seq![1usize, 2usize, 0usize]);
    assert(c1.2 =~= Seq::<usize>::empty());
    assert(spec_turn_cross(pos(7500i32, 5000i32), pos(-7500i32, 5000i32), pos(-7500i32, -5000i32)) == 150000000) by (nonlinear_arith);
    let c2 = spec_calc_turn(c1.0, c1.1, c1.2, 3);
    assert(c2.0 =~= seq![nd(3, 1, -7500i32, -5000i32, Turn::Clockwise), nd(0, 2, 7500i32, -5000i32, Turn::Clockwise), nd(1, 3, 7500i32, 5000i32, Turn::Clockwise), nd(2, 0, -7500i32, 5000i32, Turn::Clockwise)]);
    assert(c2.1 =~= seq![1usize, 2usize, 0usize, 3usize]);
    assert(c2.2 =~= Seq::<usize>::empty());
    assert(spec_prepared(st.0, st.1, st.2) == c2);
    let convex = spec_convex_turn(c2.1, c2.2);
    assert(convex == Turn::Clockwise);
    let init = spec_clip_start(st.0, spec_convex_list(c2.1, c2.2));
    let s_0 = ClipState { nodes: seq![nd(3, 1, -7500i32, -5000i32, Turn::Undefined), nd(0, 2, 7500i32, -5000i32, Turn::Clockwise), nd(1, 3, 7500i32, 5000i32, Turn::Clockwise), nd(2, 0, -7500i32, 5000i32, Turn::Undefined)], queue: seq![1usize, 2usize, 0usize, 3usize], start: 0, count: 4, out: Seq::<u32>::empty() };
    assert(init.queue =~= s_0.queue);
    assert(init == s_0);
    reveal_with_fuel(spec_walk, 5);
    // step 0: ('CUT', 1, 0, 2)
    let s_1 = ClipState { nodes: seq![nd(3, 2, -7500i32, -5000i32, Turn::Undefined), nd(0, 2, 7500i32, -5000i32, Turn::Clockwise), nd(0, 3, 7500i32, 5000i32, Turn::Clockwise), nd(2, 0, -7500i32, 5000i32, Turn::Undefined)], queue: seq![2usize, 0usize, 3usize], start: 0, count: 3, out: seq![0u32, 12u32, 6u32, 5u32, 11u32, 17u32] };
    assert forall|j: nat| j < 4 implies !spec_blocks(s_0.nodes, 0, 1, 2, #[trigger] spec_walk(s_0.nodes, 0, j), Turn::Clockwise) by {
        if j == 0 {
            assert(spec_walk(s_0.nodes, 0, 0) == 0);
        } else if j == 1 {
            assert(spec_walk(s_0.nodes, 0, 1) == 1);
        } else if j == 2 {
            assert(spec_walk(s_0.nodes, 0, 2) == 2);
        } else if j == 3 {
            assert(spec_walk(s_0.nodes, 0, 3) == 3);
            assert(spec_turn_cross(pos(7500i32, 5000i32), pos(-7500i32, -5000i32), pos(-7500i32, 5000i32)) == -150000000) by (nonlinear_arith);
        }
    }
    assert(spec_turn_cross(pos(-7500i32, 5000i32), pos(-7500i32, -5000i32), pos(7500i32, 5000i32)) == 150000000) by (nonlinear_arith);
    let t_0 = spec_clip_step(s_0, convex);
    assert(t_0.nodes =~= s_1.nodes);
    assert(t_0.queue =~= s_1.queue);
    assert(t_0.out =~= s_1.out);
    assert(t_0 == s_1);
    lemma_iter_succ(init, convex, 0);
    assert(spec_clip_iter(init, convex, 1) == s_1);
    lemma_clip_result(init, convex, 1);
}

/// The L outline triangulates: its ear clipping finishes after 3 steps.
proof fn lemma_l_finishes()
    ensures
        ({
            let st = spec_shape_state(BaseShape::L);
            spec_build_finishes(st.0, st.1, st.2)
        }),
{
    let st = spec_shape_state(BaseShape::L);
    let x = HALF_SIZE_X as int;
    let z = HALF_SIZE_Z as int;
    let p0 = Position { x: -HALF_SIZE_X as i32, z: -HALF_SIZE_Z as i32 };
    assert(p0 == pos(-7500i32, -5000i32));
    let l = spec_line(p0, spec_move_z(p0, z - p0.z));
    assert(l =~= seq![nd(1, 1, -7500i32, -5000i32, Turn::Undefined), nd(0, 0, -7500i32, 5000i32, Turn::Undefined)]);
    assert(spec_turn_cross(pos(-7500i32, -5000i32), pos(-7500i32, 5000i32), pos(0i32, 5000i32)) == -75000000) by (nonlinear_arith);
    let t = spec_triangle(l, x_to(l, 0));
    assert(t =~= seq![nd(2, 1, -7500i32, -5000i32, Turn::Undefined), nd(0, 2, -7500i32, 5000i32, Turn::CounterClockwise), nd(1, 0, 0i32, 5000i32, Turn::Undefined)]);
    assert(spec_turn_cross(pos(-7500i32, 5000i32), pos(0i32, 5000i32), pos(0i32, 0i32)) == -37500000) by (nonlinear_arith);
    let s3 = spec_from_triangle(t, z_to(t, 0));
    assert(s3.0 =~= seq![nd(3, 1, -7500i32, -5000i32, Turn::Undefined), nd(0, 2, -7500i32, 5000i32, Turn::CounterClockwise), nd(1, 3, 0i32, 5000i32, Turn::CounterClockwise), nd(2, 0, 0i32, 0i32, Turn::Undefined)]);
    assert(s3.1 =~= Seq::<usize>::empty());
    assert(s3.2 =~= seq![1usize, 2usize]);
    assert(spec_turn_cross(pos(0i32, 5000i32), pos(0i32, 0i32), pos(7500i32, 0i32)) == 37500000) by (nonlinear_arith);
    let s4 = then_insert(s3, x_to(s3.0, x));
    assert(s4.0 =~= seq![nd(4, 1, -7500i32, -5000i32, Turn::Undefined), nd(0, 2, -7500i32, 5000i32, Turn::CounterClockwise), nd(1, 3, 0i32, 5000i32, Turn::CounterClockwise), nd(2, 4, 0i32, 0i32, Turn::Clockwise), nd(3, 0, 7500i32, 0i32, Turn::Undefined)]);
    assert(s4.1 =~= seq![3usize]);
    assert(s4.2 =~= seq![1usize, 2usize]);
    assert(spec_turn_cross(pos(0i32, 0i32), pos(7500i32, 0i32), pos(7500i32, -5000i32)) == -37500000) by (nonlinear_arith);
    let s5 = then_insert(s4, z_to(s4.0, -z));
    assert(s5.0 =~= seq![nd(5, 1, -7500i32, -5000i32, Turn::Undefined), nd(0, 2, -7500i32, 5000i32, Turn::CounterClockwise), nd(1, 3, 0i32, 5000i32, Turn::CounterClockwise), nd(2, 4, 0i32, 0i32, Turn::Clockwise), nd(3, 5, 7500i32, 0i32, Turn::CounterClockwise), nd(4, 0, 7500i32, -5000i32, Turn::Undefined)]);
    assert(s5.1 =~= seq![3usize]);
    assert(s5.2 =~= seq![1usize, 2usize, 4usize]);
    assert(st == s5);
    assert(spec_turn_cross(pos(7500i32, -5000i32), pos(-7500i32, -5000i32), pos(-7500i32, 5000i32)) == -150000000) by (nonlinear_arith);
    let c1 = spec_calc_turn(st.0, st.1, st.2, 0);
    assert(c1.0 =~= seq![nd(5, 1, -7500i32, -5000i32, Turn::CounterClockwise), nd(0, 2, -7500i32, 5000i32, Turn::CounterClockwise), nd(1, 3, 0i32, 5000i32, Turn::CounterClockwise), nd(2, 4, 0i32, 0i32, Turn::Clockwise), nd(3, 5, 7500i32, 0i32, Turn::CounterClockwise), nd(4, 0, 7500i32, -5000i32, Turn::Undefined)]);
    assert(c1.1 =~= seq![3usize]);
    assert(c1.2 =~= seq![1usize, 2usize, 4usize, 0usize]);
    assert(spec_turn_cross(pos(7500i32, 0i32), pos(7500i32, -5000i32), pos(-7500i32, -5000i32)) == -75000000) by (nonlinear_arith);
    let c2 = spec_calc_turn(c1.0, c1.1, c1.2, 5);
    assert(c2.0 =~= seq![nd(5, 1, -7500i32, -5000i32, Turn::CounterClockwise), nd(0, 2, -7500i32, 5000i32, Turn::CounterClockwise), nd(1, 3, 0i32, 5000i32, Turn::CounterClockwise), nd(2, 4, 0i32, 0i32, Turn::Clockwise), nd(3, 5, 7500i32, 0i32, Turn::CounterClockwise), nd(4, 0, 7500i32, -5000i32, Turn::CounterClockwise)]);
    assert(c2.1 =~= seq![3usize]);
    assert(c2.2 =~= seq![1usize, 2usize, 4usize, 0usize, 5usize]);
    assert(spec_prepared(st.0, st.1, st.2) == c2);
    let convex = spec_convex_turn(c2.1, c2.2);
    assert(convex == Turn::CounterClockwise);
    let init = spec_clip_start(st.0, spec_convex_list(c2.1, c2.2));
    let s_0 = ClipState { nodes: seq![nd(5, 1, -7500i32, -5000i32, Turn::Undefined), nd(0, 2, -7500i32, 5000i32, Turn::CounterClockwise), nd(1, 3, 0i32, 5000i32, Turn::CounterClockwise), nd(2, 4, 0i32, 0i32, Turn::Clockwise), nd(3, 5, 7500i32, 0i32, Turn::CounterClockwise), nd(4, 0, 7500i32, -5000i32, Turn::Undefined)], queue: seq![1usize, 2usize, 4usize, 0usize, 5usize], start: 0, count: 6, out: Seq::<u32>::empty() };
    assert(init.queue =~= s_0.queue);
    assert(init == s_0);
    reveal_with_fuel(spec_walk, 7);
    // step 0: ('CUT', 1, 0, 2)
    let s_1 = ClipState { nodes: seq![nd(5, 2, -7500i32, -5000i32, Turn::Undefined), nd(0, 2, -7500i32, 5000i32, Turn::CounterClockwise), nd(0, 3, 0i32, 5000i32, Turn::CounterClockwise), nd(2, 4, 0i32, 0i32, Turn::Clockwise), nd(3, 5, 7500i32, 0i32, Turn::CounterClockwise), nd(4, 0, 7500i32, -5000i32, Turn::Undefined)], queue: seq![2usize, 4usize, 0usize, 5usize], start: 0, count: 5, out: seq![0u32, 6u32, 12u32, 5u32, 17u32, 11u32] };
    assert forall|j: nat| j < 6 implies !spec_blocks(s_0.nodes, 0, 1, 2, #[trigger] spec_walk(s_0.nodes, 0, j), Turn::CounterClockwise) by {
        if j == 0 {
            assert(spec_walk(s_0.nodes, 0, 0) == 0);
        } else if j == 1 {
            assert(spec_walk(s_0.nodes, 0, 1) == 1);
        } else if j == 2 {
            assert(spec_walk(s_0.nodes, 0, 2) == 2);
        } else if j == 3 {
            assert(spec_walk(s_0.nodes, 0, 3) == 3);
            assert(spec_turn_cross(pos(0i32, 5000i32), pos(-7500i32, -5000i32), pos(0i32, 0i32)) == 37500000) by (nonlinear_arith);
        } else if j == 4 {
            assert(spec_walk(s_0.nodes, 0, 4) == 4);
            assert(spec_turn_cross(pos(0i32, 5000i32), pos(-7500i32, -5000i32), pos(7500i32, 0i32)) == 112500000) by (nonlinear_arith);
        } else if j == 5 {
            assert(spec_walk(s_0.nodes, 0, 5) == 5);
            assert(spec_turn_cross(pos(0i32, 5000i32), pos(-7500i32, -5000i32), pos(7500i32, -5000i32)) == 150000000) by (nonlinear_arith);
        }
    }
    assert(spec_turn_cross(pos(7500i32, -5000i32), pos(-7500i32, -5000i32), pos(0i32, 5000i32)) == -150000000) by (nonlinear_arith);
    let t_0 = spec_clip_step(s_0, convex);
    assert(t_0.nodes =~= s_1.nodes);
    assert(t_0.queue =~= s_1.queue);
    assert(t_0.out =~= s_1.out);
    assert(t_0 == s_1);
    lemma_iter_succ(init, convex, 0);
    assert(spec_clip_iter(init, convex, 1) == s_1);
    // step 1: ('CUT', 2, 0, 3)
    let s_2 = ClipState { nodes: seq![nd(5, 3, -7500i32, -5000i32, Turn::Undefined), nd(0, 2, -7500i32, 5000i32, Turn::CounterClockwise), nd(0, 3, 0i32, 5000i32, Turn::CounterClockwise), nd(0, 4, 0i32, 0i32, Turn::CounterClockwise), nd(3, 5, 7500i32, 0i32, Turn::CounterClockwise), nd(4, 0, 7500i32, -5000i32, Turn::Undefined)], queue: seq![4usize, 0usize, 5usize, 3usize], start: 0, count: 4, out: seq![0u32, 6u32, 12u32, 5u32, 17u32, 11u32, 0u32, 12u32, 18u32, 5u32, 23u32, 17u32] };
    assert forall|j: nat| j < 5 implies !spec_blocks(s_1.nodes, 0, 2, 3, #[trigger] spec_walk(s_1.nodes, 0, j), Turn::CounterClockwise) by {
        if j == 0 {
            assert(spec_walk(s_1.nodes, 0, 0) == 0);
        } else if j == 1 {
            assert(spec_walk(s_1.nodes, 0, 1) == 2);
        } else if j == 2 {
            assert(spec_walk(s_1.nodes, 0, 2) == 3);
        } else if j == 3 {
            assert(spec_walk(s_1.nodes, 0, 3) == 4);
            assert(spec_turn_cross(pos(0i32, 5000i32), pos(0i32, 0i32), pos(7500i32, 0i32)) == 37500000) by (nonlinear_arith);
        } else if j == 4 {
            assert(spec_walk(s_1.nodes, 0, 4) == 5);
            assert(spec_turn_cross(pos(0i32, 5000i32), pos(0i32, 0i32), pos(7500i32, -5000i32)) == 37500000) by (nonlinear_arith);
        }
    }
    assert(spec_turn_cross(pos(7500i32, -5000i32), pos(-7500i32, -5000i32), pos(0i32, 0i32)) == -75000000) by (nonlinear_arith);
    assert(spec_turn_cross(pos(-7500i32, -5000i32), pos(0i32, 0i32), pos(7500i32, 0i32)) == -37500000) by (nonlinear_arith);
    let t_1 = spec_clip_step(s_1, convex);
    assert(t_1.nodes =~= s_2.nodes);
    assert(t_1.queue =~= s_2.queue);
    assert(t_1.out =~= s_2.out);
    assert(t_1 == s_2);
    lemma_iter_succ(init, convex, 1);
    assert(spec_clip_iter(init, convex, 2) == s_2);
    // step 2: ('CUT', 4, 3, 5)
    let s_3 = ClipState { nodes: seq![nd(5, 3, -7500i32, -5000i32, Turn::Undefined), nd(0, 2, -7500i32, 5000i32, Turn::CounterClockwise), nd(0, 3, 0i32, 5000i32, Turn::CounterClockwise), nd(0, 5, 0i32, 0i32, Turn::CounterClockwise), nd(3, 5, 7500i32, 0i32, Turn::CounterClockwise), nd(3, 0, 7500i32, -5000i32, Turn::Undefined)], queue: seq![0usize, 5usize, 3usize], start: 0, count: 3, out: seq![0u32, 6u32, 12u32, 5u32, 17u32, 11u32, 0u32, 12u32, 18u32, 5u32, 23u32, 17u32, 18u32, 24u32, 30u32, 23u32, 35u32, 29u32] };
    assert forall|j: nat| j < 4 implies !spec_blocks(s_2.nodes, 3, 4, 5, #[trigger] spec_walk(s_2.nodes, 0, j), Turn::CounterClockwise) by {
        if j == 0 {
            assert(spec_walk(s_2.nodes, 0, 0) == 0);
            assert(spec_turn_cross(pos(7500i32, -5000i32), pos(0i32, 0i32), pos(-7500i32, -5000i32)) == 75000000) by (nonlinear_arith);
        } else if j == 1 {
            assert(spec_walk(s_2.nodes, 0, 1) == 3);
        } else if j == 2 {
            assert(spec_walk(s_2.nodes, 0, 2) == 4);
        } else if j == 3 {
            assert(spec_walk(s_2.nodes, 0, 3) == 5);
        }
    }
    assert(spec_turn_cross(pos(0i32, 0i32), pos(7500i32, -5000i32), pos(-7500i32, -5000i32)) == -75000000) by (nonlinear_arith);
    let t_2 = spec_clip_step(s_2, convex);
    assert(t_2.nodes =~= s_3.nodes);
    assert(t_2.queue =~= s_3.queue);
    assert(t_2.out =~= s_3.out);
    assert(t_2 == s_3);
    lemma_iter_succ(init, convex, 2);
    assert(spec_clip_iter(init, convex, 3) == s_3);
    lemma_clip_result(init, convex, 3);
}

/// The N outline triangulates: its ear clipping finishes after 7 steps.
proof fn lemma_n_finishes()
    ensures
        ({
            let st = spec_shape_state(BaseShape::N);
            spec_build_finishes(st.0, st.1, st.2)
        }),
{
    let st = spec_shape_state(BaseShape::N);
    let x = HALF_SIZE_X as int;
    let z = HALF_SIZE_Z as int;
    let p0 = Position { x: -HALF_SIZE_X as i32, z: -HALF_SIZE_Z as i32 };
    assert(p0 == pos(-7500i32, -5000i32));
    let a = x / 3;
    let b = z / 3;
    let l = spec_line(p0, spec_move_x(p0, x - p0.x));
    assert(l =~= seq![nd(1, 1, -7500i32, -5000i32, Turn::Undefined), nd(0, 0, 7500i32, -5000i32, Turn::Undefined)]);
    assert(spec_turn_cross(pos(-7500i32, -5000i32), pos(7500i32, -5000i32), pos(7500i32, 5000i32)) == 150000000) by (nonlinear_arith);
    let t = spec_triangle(l, z_to(l, z));
    assert(t =~= seq![nd(2, 1, -7500i32, -5000i32, Turn::Undefined), nd(0, 2, 7500i32, -5000i32, Turn::Clockwise), nd(1, 0, 7500i32, 5000i32, Turn::Undefined)]);
    assert(spec_turn_cross(pos(7500i32, -5000i32), pos(7500i32, 5000i32), pos(2500i32, 5000i32)) == 50000000) by (nonlinear_arith);
    let s3 = spec_from_triangle(t, x_to(t, a));
    assert(s3.0 =~= seq![nd(3, 1, -7500i32, -5000i32, Turn::Undefined), nd(0, 2, 7500i32, -5000i32, Turn::Clockwise), nd(1, 3, 7500i32, 5000i32, Turn::Clockwise), nd(2, 0, 2500i32, 5000i32, Turn::Undefined)]);
    assert(s3.1 =~= seq![1usize, 2usize]);
    assert(s3.2 =~= Seq::<usize>::empty());
    assert(spec_turn_cross(pos(7500i32, 5000i32), pos(2500i32, 5000i32), pos(2500i32, 1666i32)) == 16670000) by (nonlinear_arith);
    let s4 = then_insert(s3, z_to(s3.0, b));
    assert(s4.0 =~= seq![nd(4, 1, -7500i32, -5000i32, Turn::Undefined), nd(0, 2, 7500i32, -5000i32, Turn::Clockwise), nd(1, 3, 7500i32, 5000i32, Turn::Clockwise), nd(2, 4, 2500i32, 5000i32, Turn::Clockwise), nd(3, 0, 2500i32, 1666i32, Turn::Undefined)]);
    assert(s4.1 =~= seq![1usize, 2usize, 3usize]);
    assert(s4.2 =~= Seq::<usize>::empty());
    assert(spec_turn_cross(pos(2500i32, 5000i32), pos(2500i32, 1666i32), pos(-2500i32, 1666i32)) == -16670000) by (nonlinear_arith);
    let s5 = then_insert(s4, x_to(s4.0, -a));
    assert(s5.0 =~= seq![nd(5, 1, -7500i32, -5000i32, Turn::Undefined), nd(0, 2, 7500i32, -5000i32, Turn::Clockwise), nd(1, 3, 7500i32, 5000i32, Turn::Clockwise), nd(2, 4, 2500i32, 5000i32, Turn::Clockwise), nd(3, 5, 2500i32, 1666i32, Turn::CounterClockwise), nd(4, 0, -2500i32, 1666i32, Turn::Undefined)]);
    assert(s5.1 =~= seq![1usize, 2usize, 3usize]);
    assert(s5.2 =~= seq![4usize]);
    assert(spec_turn_cross(pos(2500i32, 1666i32), pos(-2500i32, 1666i32), pos(-2500i32, 5000i32)) == -16670000) by (nonlinear_arith);
    let s6 = then_insert(s5, z_to(s5.0, z));
    assert(s6.0 =~= seq![nd(6, 1, -7500i32, -5000i32, Turn::Undefined), nd(0, 2, 7500i32, -5000i32, Turn::Clockwise), nd(1, 3, 7500i32, 5000i32, Turn::Clockwise), nd(2, 4, 2500i32, 5000i32, Turn::Clockwise), nd(3, 5, 2500i32, 1666i32, Turn::CounterClockwise), nd(4, 6, -2500i32, 1666i32, Turn::CounterClockwise), nd(5, 0, -2500i32, 5000i32, Turn::Undefined)]);
    assert(s6.1 =~= seq![1usize, 2usize, 3usize]);
    assert(s6.2 =~= seq![4usize, 5usize]);
    assert(spec_turn_cross(pos(-2500i32, 1666i32), pos(-2500i32, 5000i32), pos(-7500i32, 5000i32)) == 16670000) by (nonlinear_arith);
    let s7 = then_insert(s6, x_to(s6.0, -x));
    assert(s7.0 =~= seq![nd(7, 1, -7500i32, -5000i32, Turn::Undefined), nd(0, 2, 7500i32, -5000i32, Turn::Clockwise), nd(1, 3, 7500i32, 5000i32, Turn::Clockwise), nd(2, 4, 2500i32, 5000i32, Turn::Clockwise), nd(3, 5, 2500i32, 1666i32, Turn::CounterClockwise), nd(4, 6, -2500i32, 1666i32, Turn::CounterClockwise), nd(5, 7, -2500i32, 5000i32, Turn::Clockwise), nd(6, 0, -7500i32, 5000i32, Turn::Undefined)]);
    assert(s7.1 =~= seq![1usize, 2usize, 3usize, 6usize]);
    assert(s7.2 =~= seq![4usize, 5usize]);
    assert(st == s7);
    assert(spec_turn_cross(pos(-7500i32, 5000i32), pos(-7500i32, -5000i32), pos(7500i32, -5000i32)) == 150000000) by (nonlinear_arith);
    let c1 = spec_calc_turn(st.0, st.1, st.2, 0);
    assert(c1.0 =~= seq![nd(7, 1, -7500i32, -5000i32, Turn::Clockwise), nd(0, 2, 7500i32, -5000i32, Turn::Clockwise), nd(1, 3, 7500i32, 5000i32, Turn::Clockwise), nd(2, 4, 2500i32, 5000i32, Turn::Clockwise), nd(3, 5, 2500i32, 1666i32, Turn::CounterClockwise), nd(4, 6, -2500i32, 1666i32, Turn::CounterClockwise), nd(5, 7, -2500i32, 5000i32, Turn::Clockwise), nd(6, 0, -7500i32, 5000i32, Turn::Undefined)]);
    assert(c1.1 =~= seq![1usize, 2usize, 3usize, 6usize, 0usize]);
    assert(c1.2 =~= seq![4usize, 5usize]);
    assert(spec_turn_cross(pos(-2500i32, 5000i32), pos(-7500i32, 5000i32), pos(-7500i32, -5000i32)) == 50000000) by (nonlinear_arith);
    let c2 = spec_calc_turn(c1.0, c1.1, c1.2, 7);
    assert(c2.0 =~= seq![nd(7, 1, -7500i32, -5000i32, Turn::Clockwise), nd(0, 2, 7500i32, -5000i32, Turn::Clockwise), nd(1, 3, 7500i32, 5000i32, Turn::Clockwise), nd(2, 4, 2500i32, 5000i32, Turn::Clockwise), nd(3, 5, 2500i32, 1666i32, Turn::CounterClockwise), nd(4, 6, -2500i32, 1666i32, Turn::CounterClockwise), nd(5, 7, -2500i32, 5000i32, Turn::Clockwise), nd(6, 0, -7500i32, 5000i32, Turn::Clockwise)]);
    assert(c2.1 =~= seq![1usize, 2usize, 3usize, 6usize, 0usize, 7usize]);
    assert(c2.2 =~= seq![4usize, 5usize]);
    assert(spec_prepared(st.0, st.1, st.2) == c2);
    let convex = spec_convex_turn(c2.1, c2.2);
    assert(convex == Turn::Clockwise);
    let init = spec_clip_start(st.0, spec_convex_list(c2.1, c2.2));
    let s_0 = ClipState { nodes: seq![nd(7, 1, -7500i32, -5000i32, Turn::Undefined), nd(0, 2, 7500i32, -5000i32, Turn::Clockwise), nd(1, 3, 7500i32, 5000i32, Turn::Clockwise), nd(2, 4, 2500i32, 5000i32, Turn::Clockwise), nd(3, 5, 2500i32, 1666i32, Turn::CounterClockwise), nd(4, 6, -2500i32, 1666i32, Turn::CounterClockwise), nd(5, 7, -2500i32, 5000i32, Turn::Clockwise), nd(6, 0, -7500i32, 5000i32, Turn::Undefined)], queue: seq![1usize, 2usize, 3usize, 6usize, 0usize, 7usize], start: 0, count: 8, out: Seq::<u32>::empty() };
    assert(init.queue =~= s_0.queue);
    assert(init == s_0);
    reveal_with_fuel(spec_walk, 9);
    // step 0: ('REJ', 1, 4)
    let s_1 = ClipState { nodes: seq![nd(7, 1, -7500i32, -5000i32, Turn::Undefined), nd(0, 2, 7500i32, -5000i32, Turn::Clockwise), nd(1, 3, 7500i32, 5000i32, Turn::Clockwise), nd(2, 4, 2500i32, 5000i32, Turn::Clockwise), nd(3, 5, 2500i32, 1666i32, Turn::CounterClockwise), nd(4, 6, -2500i32, 1666i32, Turn::CounterClockwise), nd(5, 7, -2500i32, 5000i32, Turn::Clockwise), nd(6, 0, -7500i32, 5000i32, Turn::Undefined)], queue: seq![2usize, 3usize, 6usize, 0usize, 7usize, 1usize], start: 0, count: 8, out: Seq::<u32>::empty() };
    assert(spec_walk(s_0.nodes, 0, 4) == 4);
    assert(spec_turn_cross(pos(-7500i32, -5000i32), pos(7500i32, -5000i32), pos(2500i32, 1666i32)) == 99990000) by (nonlinear_arith);
    assert(spec_turn_cross(pos(7500i32, -5000i32), pos(7500i32, 5000i32), pos(2500i32, 1666i32)) == 50000000) by (nonlinear_arith);
    assert(spec_turn_cross(pos(7500i32, 5000i32), pos(-7500i32, -5000i32), pos(2500i32, 1666i32)) == 10000) by (nonlinear_arith);
    assert(spec_blocks(s_0.nodes, 0, 1, 2, spec_walk(s_0.nodes, 0, 4), Turn::Clockwise));
    let t_0 = spec_clip_step(s_0, convex);
    assert(t_0.nodes =~= s_1.nodes);
    assert(t_0.queue =~= s_1.queue);
    assert(t_0.out =~= s_1.out);
    assert(t_0 == s_1);
    lemma_iter_succ(init, convex, 0);
    assert(spec_clip_iter(init, convex, 1) == s_1);
    // step 1: ('CUT', 2, 1, 3)
    let s_2 = ClipState { nodes: seq![nd(7, 1, -7500i32, -5000i32, Turn::Undefined), nd(0, 3, 7500i32, -5000i32, Turn::Clockwise), nd(1, 3, 7500i32, 5000i32, Turn::Clockwise), nd(1, 4, 2500i32, 5000i32, Turn::Clockwise), nd(3, 5, 2500i32, 1666i32, Turn::CounterClockwise), nd(4, 6, -2500i32, 1666i32, Turn::CounterClockwise), nd(5, 7, -2500i32, 5000i32, Turn::Clockwise), nd(6, 0, -7500i32, 5000i32, Turn::Undefined)], queue: seq![3usize, 6usize, 0usize, 7usize, 1usize], start: 0, count: 7, out: seq![6u32, 18u32, 12u32, 11u32, 17u32, 23u32] };
    assert forall|j: nat| j < 8 implies !spec_blocks(s_1.nodes, 1, 2, 3, #[trigger] spec_walk(s_1.nodes, 0, j), Turn::Clockwise) by {
        if j == 0 {
            assert(spec_walk(s_1.nodes, 0, 0) == 0);
            assert(spec_turn_cross(pos(2500i32, 5000i32), pos(7500i32, -5000i32), pos(-7500i32, -5000i32)) == -150000000) by (nonlinear_arith);
        } else if j == 1 {
            assert(spec_walk(s_1.nodes, 0, 1) == 1);
        } else if j == 2 {
            assert(spec_walk(s_1.nodes, 0, 2) == 2);
        } else if j == 3 {
            assert(spec_walk(s_1.nodes, 0, 3) == 3);
        } else if j == 4 {
            assert(spec_walk(s_1.nodes, 0, 4) == 4);
            assert(spec_turn_cross(pos(2500i32, 5000i32), pos(7500i32, -5000i32), pos(2500i32, 1666i32)) == -16670000) by (nonlinear_arith);
        } else if j == 5 {
            assert(spec_walk(s_1.nodes, 0, 5) == 5);
            assert(spec_turn_cross(pos(2500i32, 5000i32), pos(7500i32, -5000i32), pos(-2500i32, 1666i32)) == -66670000) by (nonlinear_arith);
        } else if j == 6 {
            assert(spec_walk(s_1.nodes, 0, 6) == 6);
            assert(spec_turn_cross(pos(2500i32, 5000i32), pos(7500i32, -5000i32), pos(-2500i32, 5000i32)) == -50000000) by (nonlinear_arith);
        } else if j == 7 {
            assert(spec_walk(s_1.nodes, 0, 7) == 7);
            assert(spec_turn_cross(pos(2500i32, 5000i32), pos(7500i32, -5000i32), pos(-7500i32, 5000i32)) == -100000000) by (nonlinear_arith);
        }
    }
    let t_1 = spec_clip_step(s_1, convex);
    assert(t_1.nodes =~= s_2.nodes);
    assert(t_1.queue =~= s_2.queue);
    assert(t_1.out =~= s_2.out);
    assert(t_1 == s_2);
    lemma_iter_succ(init, convex, 1);
    assert(spec_clip_iter(init, convex, 2) == s_2);
    // step 2: ('CUT', 3, 1, 4)
    let s_3 = ClipState { nodes: seq![nd(7, 1, -7500i32, -5000i32, Turn::Undefined), nd(0, 4, 7500i32, -5000i32, Turn::Clockwise), nd(1, 3, 7500i32, 5000i32, Turn::Clockwise), nd(1, 4, 2500i32, 5000i32, Turn::Clockwise), nd(1, 5, 2500i32, 1666i32, Turn::Clockwise), nd(4, 6, -2500i32, 1666i32, Turn::CounterClockwise), nd(5, 7, -2500i32, 5000i32, Turn::Clockwise), nd(6, 0, -7500i32, 5000i32, Turn::Undefined)], queue: seq![6usize, 0usize, 7usize, 1usize, 4usize], start: 0, count: 6, out: seq![6u32, 18u32, 12u32, 11u32, 17u32, 23u32, 6u32, 24u32, 18u32, 11u32, 23u32, 29u32] };
    assert forall|j: nat| j < 7 implies !spec_blocks(s_2.nodes, 1, 3, 4, #[trigger] spec_walk(s_2.nodes, 0, j), Turn::Clockwise) by {
        if j == 0 {
            assert(spec_walk(s_2.nodes, 0, 0) == 0);
            assert(spec_turn_cross(pos(2500i32, 5000i32), pos(2500i32, 1666i32), pos(-7500i32, -5000i32)) == -33340000) by (nonlinear_arith);
        } else if j == 1 {
            assert(spec_walk(s_2.nodes, 0, 1) == 1);
        } else if j == 2 {
            assert(spec_walk(s_2.nodes, 0, 2) == 3);
        } else if j == 3 {
            assert(spec_walk(s_2.nodes, 0, 3) == 4);
        } else if j == 4 {
            assert(spec_walk(s_2.nodes, 0, 4) == 5);
            assert(spec_turn_cross(pos(2500i32, 5000i32), pos(2500i32, 1666i32), pos(-2500i32, 1666i32)) == -16670000) by (nonlinear_arith);
        } else if j == 5 {
            assert(spec_walk(s_2.nodes, 0, 5) == 6);
            assert(spec_turn_cross(pos(2500i32, 5000i32), pos(2500i32, 1666i32), pos(-2500i32, 5000i32)) == -16670000) by (nonlinear_arith);
        } else if j == 6 {
            assert(spec_walk(s_2.nodes, 0, 6) == 7);
            assert(spec_turn_cross(pos(2500i32, 5000i32), pos(2500i32, 1666i32), pos(-7500i32, 5000i32)) == -33340000) by (nonlinear_arith);
        }
    }
    assert(spec_turn_cross(pos(7500i32, -5000i32), pos(2500i32, 1666i32), pos(-2500i32, 1666i32)) == 33330000) by (nonlinear_arith);
    let t_2 = spec_clip_step(s_2, convex);
    assert(t_2.nodes =~= s_3.nodes);
    assert(t_2.queue =~= s_3.queue);
    assert(t_2.out =~= s_3.out);
    assert(t_2 == s_3);
    lemma_iter_succ(init, convex, 2);
    assert(spec_clip_iter(init, convex, 3) == s_3);
    // step 3: ('CUT', 6, 5, 7)
    let s_4 = ClipState { nodes: seq![nd(7, 1, -7500i32, -5000i32, Turn::Undefined), nd(0, 4, 7500i32, -5000i32, Turn::Clockwise), nd(1, 3, 7500i32, 5000i32, Turn::Clockwise), nd(1, 4, 2500i32, 5000i32, Turn::Clockwise), nd(1, 5, 2500i32, 1666i32, Turn::Clockwise), nd(4, 7, -2500i32, 1666i32, Turn::CounterClockwise), nd(5, 7, -2500i32, 5000i32, Turn::Clockwise), nd(5, 0, -7500i32, 5000i32, Turn::Undefined)], queue: seq![0usize, 7usize, 1usize, 4usize], start: 0, count: 5, out: seq![6u32, 18u32, 12u32, 11u32, 17u32, 23u32, 6u32, 24u32, 18u32, 11u32, 23u32, 29u32, 30u32, 42u32, 36u32, 35u32, 41u32, 47u32] };
    assert forall|j: nat| j < 6 implies !spec_blocks(s_3.nodes, 5, 6, 7, #[trigger] spec_walk(s_3.nodes, 0, j), Turn::Clockwise) by {
        if j == 0 {
            assert(spec_walk(s_3.nodes, 0, 0) == 0);
            assert(spec_turn_cross(pos(-7500i32, 5000i32), pos(-2500i32, 1666i32), pos(-7500i32, -5000i32)) == -50000000) by (nonlinear_arith);
        } else if j == 1 {
            assert(spec_walk(s_3.nodes, 0, 1) == 1);
            assert(spec_turn_cross(pos(-2500i32, 1666i32), pos(-2500i32, 5000i32), pos(7500i32, -5000i32)) == -33340000) by (nonlinear_arith);
        } else if j == 2 {
            assert(spec_walk(s_3.nodes, 0, 2) == 4);
            assert(spec_turn_cross(pos(-2500i32, 1666i32), pos(-2500i32, 5000i32), pos(2500i32, 1666i32)) == -16670000) by (nonlinear_arith);
        } else if j == 3 {
            assert(spec_walk(s_3.nodes, 0, 3) == 5);
        } else if j == 4 {
            assert(spec_walk(s_3.nodes, 0, 4) == 6);
        } else if j == 5 {
            assert(spec_walk(s_3.nodes, 0, 5) == 7);
        }
    }
    assert(spec_turn_cross(pos(2500i32, 1666i32), pos(-2500i32, 1666i32), pos(-7500i32, 5000i32)) == -16670000) by (nonlinear_arith);
    assert(spec_turn_cross(pos(-2500i32, 1666i32), pos(-7500i32, 5000i32), pos(-7500i32, -5000i32)) == 50000000) by (nonlinear_arith);
    let t_3 = spec_clip_step(s_3, convex);
    assert(t_3.nodes =~= s_4.nodes);
    assert(t_3.queue =~= s_4.queue);
    assert(t_3.out =~= s_4.out);
    assert(t_3 == s_4);
    lemma_iter_succ(init, convex, 3);
    assert(spec_clip_iter(init, convex, 4) == s_4);
    // step 4: ('REJ', 0, 3)
    let s_5 = ClipState { nodes: seq![nd(7, 1, -7500i32, -5000i32, Turn::Undefined), nd(0, 4, 7500i32, -5000i32, Turn::Clockwise), nd(1, 3, 7500i32, 5000i32, Turn::Clockwise), nd(1, 4, 2500i32, 5000i32, Turn::Clockwise), nd(1, 5, 2500i32, 1666i32, Turn::Clockwise), nd(4, 7, -2500i32, 1666i32, Turn::CounterClockwise), nd(5, 7, -2500i32, 5000i32, Turn::Clockwise), nd(5, 0, -7500i32, 5000i32, Turn::Undefined)], queue: seq![7usize, 1usize, 4usize, 0usize], start: 0, count: 5, out: seq![6u32, 18u32, 12u32, 11u32, 17u32, 23u32, 6u32, 24u32, 18u32, 11u32, 23u32, 29u32, 30u32, 42u32, 36u32, 35u32, 41u32, 47u32] };
    assert(spec_walk(s_4.nodes, 0, 3) == 5);
    assert(spec_turn_cross(pos(-7500i32, 5000i32), pos(-7500i32, -5000i32), pos(-2500i32, 1666i32)) == 50000000) by (nonlinear_arith);
    assert(spec_turn_cross(pos(-7500i32, -5000i32), pos(7500i32, -5000i32), pos(-2500i32, 1666i32)) == 99990000) by (nonlinear_arith);
    assert(spec_turn_cross(pos(7500i32, -5000i32), pos(-7500i32, 5000i32), pos(-2500i32, 1666i32)) == 10000) by (nonlinear_arith);
    assert(spec_blocks(s_4.nodes, 7, 0, 1, spec_walk(s_4.nodes, 0, 3), Turn::Clockwise));
    let t_4 = spec_clip_step(s_4, convex);
    assert(t_4.nodes =~= s_5.nodes);
    assert(t_4.queue =~= s_5.queue);
    assert(t_4.out =~= s_5.out);
    assert(t_4 == s_5);
    lemma_iter_succ(init, convex, 4);
    assert(spec_clip_iter(init, convex, 5) == s_5);
    // step 5: ('CUT', 7, 5, 0)
    let s_6 = ClipState { nodes: seq![nd(5, 1, -7500i32, -5000i32, Turn::Undefined), nd(0, 4, 7500i32, -5000i32, Turn::Clockwise), nd(1, 3, 7500i32, 5000i32, Turn::Clockwise), nd(1, 4, 2500i32, 5000i32, Turn::Clockwise), nd(1, 5, 2500i32, 1666i32, Turn::Clockwise), nd(4, 0, -2500i32, 1666i32, Turn::Clockwise), nd(5, 7, -2500i32, 5000i32, Turn::Clockwise), nd(5, 0, -7500i32, 5000i32, Turn::Undefined)], queue: seq![1usize, 4usize, 0usize, 5usize], start: 0, count: 4, out: seq![6u32, 18u32, 12u32, 11u32, 17u32, 23u32, 6u32, 24u32, 18u32, 11u32, 23u32, 29u32, 30u32, 42u32, 36u32, 35u32, 41u32, 47u32, 30u32, 0u32, 42u32, 35u32, 47u32, 5u32] };
    assert forall|j: nat| j < 5 implies !spec_blocks(s_5.nodes, 5, 7, 0, #[trigger] spec_walk(s_5.nodes, 0, j), Turn::Clockwise) by {
        if j == 0 {
            assert(spec_walk(s_5.nodes, 0, 0) == 0);
        } else if j == 1 {
            assert(spec_walk(s_5.nodes, 0, 1) == 1);
            assert(spec_turn_cross(pos(-2500i32, 1666i32), pos(-7500i32, 5000i32), pos(7500i32, -5000i32)) == -10000) by (nonlinear_arith);
        } else if j == 2 {
            assert(spec_walk(s_5.nodes, 0, 2) == 4);
            assert(spec_turn_cross(pos(-2500i32, 1666i32), pos(-7500i32, 5000i32), pos(2500i32, 1666i32)) == -16670000) by (nonlinear_arith);
        } else if j == 3 {
            assert(spec_walk(s_5.nodes, 0, 3) == 5);
        } else if j == 4 {
            assert(spec_walk(s_5.nodes, 0, 4) == 7);
        }
    }
    assert(spec_turn_cross(pos(2500i32, 1666i32), pos(-2500i32, 1666i32), pos(-7500i32, -5000i32)) == 33330000) by (nonlinear_arith);
    assert(spec_turn_cross(pos(-2500i32, 1666i32), pos(-7500i32, -5000i32), pos(7500i32, -5000i32)) == 99990000) by (nonlinear_arith);
    let t_5 = spec_clip_step(s_5, convex);
    assert(t_5.nodes =~= s_6.nodes);
    assert(t_5.queue =~= s_6.queue);
    assert(t_5.out =~= s_6.out);
    assert(t_5 == s_6);
    lemma_iter_succ(init, convex, 5);
    assert(spec_clip_iter(init, convex, 6) == s_6);
    // step 6: ('CUT', 1, 0, 4)
    let s_7 = ClipState { nodes: seq![nd(5, 4, -7500i32, -5000i32, Turn::Undefined), nd(0, 4, 7500i32, -5000i32, Turn::Clockwise), nd(1, 3, 7500i32, 5000i32, Turn::Clockwise), nd(1, 4, 2500i32, 5000i32, Turn::Clockwise), nd(0, 5, 2500i32, 1666i32, Turn::Clockwise), nd(4, 0, -2500i32, 1666i32, Turn::Clockwise), nd(5, 7, -2500i32, 5000i32, Turn::Clockwise), nd(5, 0, -7500i32, 5000i32, Turn::Undefined)], queue: seq![4usize, 0usize, 5usize], start: 0, count: 3, out: seq![6u32, 18u32, 12u32, 11u32, 17u32, 23u32, 6u32, 24u32, 18u32, 11u32, 23u32, 29u32, 30u32, 42u32, 36u32, 35u32, 41u32, 47u32, 30u32, 0u32, 42u32, 35u32, 47u32, 5u32, 0u32, 24u32, 6u32, 5u32, 11u32, 29u32] };
    assert forall|j: nat| j < 4 implies !spec_blocks(s_6.nodes, 0, 1, 4, #[trigger] spec_walk(s_6.nodes, 0, j), Turn::Clockwise) by {
        if j == 0 {
            assert(spec_walk(s_6.nodes, 0, 0) == 0);
        } else if j == 1 {
            assert(spec_walk(s_6.nodes, 0, 1) == 1);
        } else if j == 2 {
            assert(spec_walk(s_6.nodes, 0, 2) == 4);
        } else if j == 3 {
            assert(spec_walk(s_6.nodes, 0, 3) == 5);
            assert(spec_turn_cross(pos(2500i32, 1666i32), pos(-7500i32, -5000i32), pos(-2500i32, 1666i32)) == -33330000) by (nonlinear_arith);
        }
    }
    assert(spec_turn_cross(pos(-2500i32, 1666i32), pos(-7500i32, -5000i32), pos(2500i32, 1666i32)) == 33330000) by (nonlinear_arith);
    let t_6 = spec_clip_step(s_6, convex);
    assert(t_6.nodes =~= s_7.nodes);
    assert(t_6.queue =~= s_7.queue);
    assert(t_6.out =~= s_7.out);
    assert(t_6 == s_7);
    lemma_iter_succ(init, convex, 6);
    assert(spec_clip_iter(init, convex, 7) == s_7);
    lemma_clip_result(init, convex, 7);
}

/// Every preset outline triangulates: building it never returns `None`.
pub proof fn lemma_presets_triangulate(shape: BaseShape)
    ensures
        ({
            let st = spec_shape_state(shape);
            spec_build_finishes(st.0, st.1, st.2)
        }),
{
    match shape {
        BaseShape::Rectangle => lemma_rectangle_finishes(),
        BaseShape::L => lemma_l_finishes(),
        BaseShape::N => lemma_n_finishes(),
    }
}

} // verus!
