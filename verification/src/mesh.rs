//! The mesh of a base: six vertices per node (three on top, three at the
//! bottom), their normals, and the triangle indices of the sides and of the
//! top and bottom faces, which ear clipping triangulates.
//!
//! The vertices of a node, by offset:
//!
//! ```text
//!        TOP
//!         0
//!    -----+-----
//!        2|1
//!      B  |  A
//!        3|4
//!    -----+-----
//!         5
//!      BOTTOM
//! ```
use vstd::prelude::*;
use std::collections::VecDeque;
use crate::geometry::{Position, spec_cross, turn_cross};
use crate::nodes::{Connection, Node, NodeList, Turn, links_in_range, spec_node_turn};
use crate::builder::{
    Base, BaseBuilder, Polygon, PrevMove, X, lemma_calc_turn_match, lists_match, lists_wf,
    polygon_shape, spec_calc_turn, turns_hold,
};
use crate::nodes::is_ring;
use crate::faces::{
    convex_sign, faces_up, groups_ok, lemma_clip_faces, lemma_faces_up_same, lemma_outline_area_same,
    lemma_start_inv, outline_area,
};
use std::marker::PhantomData;
use crate::clip::{
    ClipState, clip_wf, lemma_iter_wf, spec_clip_result, spec_last_triangle, lemma_clip_result, lemma_cycle_stuck, lemma_empty_queue_stuck, lemma_iter_add,
    lemma_iter_succ, lemma_never_finishes, lemma_rotate_full, lemma_rotate_step, lemma_step_wf,
    lemma_walk_in_range, spec_blocks, spec_bottom, spec_clip_finishes, spec_clip_iter,
    spec_clip_output, spec_clip_step, spec_ear_is_empty, spec_inside, spec_rotate, spec_top,
    spec_unlink, spec_walk,
};

verus! {

/// Vertices per node.
pub const VERTEX_PER_NODE: u32 = 6;

/// Indices per triangle.
pub const INDEX_PER_TRIANGLE: usize = 3;

/// The largest node count whose vertex indices (six per node) fit in a
/// `u32`.
pub const MAX_NODES: usize = 0x2AAA_AAAA;

/// Half the height (mm) of the base slab.
pub const HALF_SIZE_Y: i32 = 150;

/// A mesh vertex (mm).
#[derive(Clone, Copy, Debug, PartialEq, Eq, Structural)]
pub struct Vertex {
    pub x: i32,
    pub y: i32,
    pub z: i32,
}

/// A mesh normal: a unit vector along one axis.
#[derive(Clone, Copy, Debug, PartialEq, Eq, Structural)]
pub struct Normal {
    pub x: i8,
    pub y: i8,
    pub z: i8,
}

/// The normal of the top face.
pub open spec fn up() -> Normal {
    Normal { x: 0, y: 1, z: 0 }
}

/// The normal of the bottom face.
pub open spec fn down() -> Normal {
    Normal { x: 0, y: -1i8, z: 0 }
}

/// The sign of a distance, with zero counted as positive.
pub open spec fn spec_sign(v: int) -> i8 {
    if v < 0 {
        -1i8
    } else {
        1
    }
}

/// The normal of the side along the edge from `p0` to `p1`: the edge's
/// direction turned a quarter clockwise (seen from above, x right, z down),
/// so that it points to the right of the way from `p0` to `p1`. Along x when
/// the edge runs along z, else along z.
pub open spec fn spec_side_normal(p0: Position, p1: Position) -> Normal {
    if p1.x - p0.x == 0 {
        Normal { x: (-spec_sign(p1.z - p0.z)) as i8, y: 0, z: 0 }
    } else {
        Normal { x: 0, y: 0, z: spec_sign(p1.x - p0.x) }
    }
}

/// The six normals of a node at `p1` between the nodes at `p0` and `p2`.
pub open spec fn spec_normal_block(p0: Position, p1: Position, p2: Position) -> Seq<Normal> {
    let a = spec_side_normal(p0, p1);
    let b = spec_side_normal(p1, p2);
    seq![up(), a, b, a, b, down()]
}

/// The six vertices of a node at `p`.
pub open spec fn spec_vertex_block(p: Position) -> Seq<Vertex> {
    let t = Vertex { x: p.x, y: HALF_SIZE_Y, z: p.z };
    let b = Vertex { x: p.x, y: (-HALF_SIZE_Y) as i32, z: p.z };
    seq![t, t, t, b, b, b]
}

/// The two side triangles between node `i0` and node `i1`.
pub open spec fn spec_side(i0: usize, i1: usize) -> Seq<u32> {
    seq![
        (6 * i0 + 3) as u32,
        (6 * i0 + 1) as u32,
        (6 * i1 + 4) as u32,
        (6 * i0 + 1) as u32,
        (6 * i1 + 2) as u32,
        (6 * i1 + 4) as u32,
    ]
}

/// The vertices of the first `k` nodes.
pub open spec fn spec_vertices(nodes: Seq<Node>, k: nat) -> Seq<Vertex>
    decreases k,
{
    if k == 0 {
        Seq::empty()
    } else {
        spec_vertices(nodes, (k - 1) as nat) + spec_vertex_block(nodes[k - 1].position)
    }
}

/// The normals of node `i`, whose sides face outwards from a ring whose
/// convex corners turn `convex`.
pub open spec fn spec_node_normals(nodes: Seq<Node>, i: int, convex: Turn) -> Seq<Normal> {
    let prev = nodes[nodes[i].connection.prev as int].position;
    let next = nodes[nodes[i].connection.next as int].position;
    if convex == Turn::Clockwise {
        spec_normal_block(next, nodes[i].position, prev)
    } else {
        spec_normal_block(prev, nodes[i].position, next)
    }
}

/// The normals of the first `k` nodes.
pub open spec fn spec_normals(nodes: Seq<Node>, convex: Turn, k: nat) -> Seq<Normal>
    decreases k,
{
    if k == 0 {
        Seq::empty()
    } else {
        spec_normals(nodes, convex, (k - 1) as nat) + spec_node_normals(nodes, k - 1, convex)
    }
}

/// The side triangles from node `i` to its next node.
pub open spec fn spec_node_sides(nodes: Seq<Node>, i: int, convex: Turn) -> Seq<u32> {
    let next = nodes[i].connection.next;
    if convex == Turn::Clockwise {
        spec_side(i as usize, next)
    } else {
        spec_side(next, i as usize)
    }
}

/// The side triangles of the first `k` nodes.
pub open spec fn spec_sides(nodes: Seq<Node>, convex: Turn, k: nat) -> Seq<u32>
    decreases k,
{
    if k == 0 {
        Seq::empty()
    } else {
        spec_sides(nodes, convex, (k - 1) as nat) + spec_node_sides(nodes, k - 1, convex)
    }
}

/// The edge from `p` to `q` runs along x or along z, and has a length.
pub open spec fn axis_edge(p: Position, q: Position) -> bool {
    (p.x == q.x) != (p.z == q.z)
}

/// `n` is the outward normal of the side along the edge from `p` to `q` of
/// an outline whose convex corners turn `convex`: a unit vector in the
/// ground plane, square to the edge, on the side that the outline does not
/// turn to (the right of the way for a counter clockwise outline, the left
/// for a clockwise one).
pub open spec fn is_outward(n: Normal, p: Position, q: Position, convex: Turn) -> bool {
    let dx = q.x - p.x;
    let dz = q.z - p.z;
    let c = spec_cross(dx, dz, n.x as int, n.z as int);
    &&& n.y == 0
    &&& n.x * n.x + n.z * n.z == 1
    &&& n.x * dx + n.z * dz == 0
    &&& if convex == Turn::Clockwise {
        c < 0
    } else {
        c > 0
    }
}

/// The six normals of node `i`.
pub open spec fn normals_of(normals: Seq<Normal>, i: int) -> Seq<Normal> {
    normals.subrange(6 * i, 6 * i + 6)
}

/// The side normal of an edge along an axis is a unit vector square to it,
/// on the right of the way from `p0` to `p1`.
pub proof fn lemma_side_normal(p0: Position, p1: Position)
    requires
        axis_edge(p0, p1),
    ensures
        is_outward(spec_side_normal(p0, p1), p0, p1, Turn::CounterClockwise),
        is_outward(spec_side_normal(p0, p1), p1, p0, Turn::Clockwise),
{
    let n = spec_side_normal(p0, p1);
    let nx = n.x as int;
    let nz = n.z as int;
    let dx = p1.x - p0.x;
    let dz = p1.z - p0.z;
    let ex = p0.x - p1.x;
    let ez = p0.z - p1.z;
    if dx == 0 {
        assert(nz == 0 && (dz < 0 ==> nx == 1) && (dz >= 0 ==> nx == -1));
    } else {
        assert(dz == 0);
        assert(nx == 0 && (dx < 0 ==> nz == -1) && (dx >= 0 ==> nz == 1));
    }
    assert({
        &&& nx * nx + nz * nz == 1
        &&& nx * dx + nz * dz == 0
        &&& nx * ex + nz * ez == 0
        &&& spec_cross(dx, dz, nx, nz) > 0
        &&& spec_cross(ex, ez, nx, nz) < 0
    }) by (nonlinear_arith)
        requires
            ex == -dx,
            ez == -dz,
            (dx == 0) != (dz == 0),
            dx == 0 ==> nz == 0 && (dz < 0 ==> nx == 1) && (dz >= 0 ==> nx == -1),
            dx != 0 ==> nx == 0 && (dx < 0 ==> nz == -1) && (dx >= 0 ==> nz == 1),
    ;
}

/// The normals of a base mesh, six per node.
pub struct BaseMeshNormals(pub Vec<Normal>);

impl View for BaseMeshNormals {
    type V = Seq<Normal>;

    open spec fn view(&self) -> Seq<Normal> {
        self.0@
    }
}

fn sign(v: i64) -> (s: i8)
    ensures
        s == spec_sign(v as int),
{
    if v < 0 {
        -1i8
    } else {
        1
    }
}

fn side_normal(p0: Position, p1: Position) -> (n: Normal)
    ensures
        n == spec_side_normal(p0, p1),
{
    let v = p1.sub(p0);
    if v.x == 0 {
        Normal { x: -sign(v.z), y: 0, z: 0 }
    } else {
        Normal { x: 0, y: 0, z: sign(v.x) }
    }
}

impl BaseMeshNormals {
    /// Creates an empty list of normals with the given capacity.
    pub fn with_capacity(capacity: usize) -> (n: Self)
        ensures
            n@ == Seq::<Normal>::empty(),
    {
        BaseMeshNormals(Vec::with_capacity(capacity))
    }

    /// Adds the six normals of the node at `position1` between the nodes at
    /// `position0` and `position2` (given either from previous to next or
    /// from next to previous).
    pub fn add_from_positions(&mut self, position0: Position, position1: Position, position2: Position)
        ensures
            final(self)@ == old(self)@ + spec_normal_block(position0, position1, position2),
    {
        let normal_a = side_normal(position0, position1);
        let normal_b = side_normal(position1, position2);
        self.0.push(Normal { x: 0, y: 1, z: 0 });
        self.0.push(normal_a);
        self.0.push(normal_b);
        self.0.push(normal_a);
        self.0.push(normal_b);
        self.0.push(Normal { x: 0, y: -1, z: 0 });
        assert(self@ =~= old(self)@ + spec_normal_block(position0, position1, position2));
    }
}

/// The triangle indices of a base mesh.
pub struct BaseMeshIndices(pub Vec<u32>);

impl View for BaseMeshIndices {
    type V = Seq<u32>;

    open spec fn view(&self) -> Seq<u32> {
        self.0@
    }
}

impl BaseMeshIndices {
    /// Offset of the top vertex of side A.
    pub const OFFSET_TOP_SIDE_A: u32 = 1;

    /// Offset of the top vertex of side B.
    pub const OFFSET_TOP_SIDE_B: u32 = 2;

    /// Offset of the bottom vertex of side A.
    pub const OFFSET_BOTTOM_SIDE_A: u32 = 3;

    /// Offset of the bottom vertex of side B.
    pub const OFFSET_BOTTOM_SIDE_B: u32 = 4;

    /// Offset of the bottom vertex.
    pub const OFFSET_BOTTOM: u32 = 5;

    /// Creates an empty index list with the given capacity.
    pub fn with_capacity(capacity: usize) -> (i: Self)
        ensures
            i@ == Seq::<u32>::empty(),
    {
        BaseMeshIndices(Vec::with_capacity(capacity))
    }

    /// Adds the top triangle of the nodes `index0`, `index1`, `index2`.
    pub fn add_top_triangle(&mut self, index0: usize, index1: usize, index2: usize)
        requires
            6 * index0 <= u32::MAX,
            6 * index1 <= u32::MAX,
            6 * index2 <= u32::MAX,
        ensures
            final(self)@ == old(self)@ + spec_top(index0, index1, index2),
    {
        self.0.push(index0 as u32 * VERTEX_PER_NODE);
        self.0.push(index1 as u32 * VERTEX_PER_NODE);
        self.0.push(index2 as u32 * VERTEX_PER_NODE);
        assert(self@ =~= old(self)@ + spec_top(index0, index1, index2));
    }

    /// Adds the bottom triangle of the nodes `index0`, `index1`, `index2`.
    pub fn add_bottom_triangle(&mut self, index0: usize, index1: usize, index2: usize)
        requires
            6 * index0 + 5 <= u32::MAX,
            6 * index1 + 5 <= u32::MAX,
            6 * index2 + 5 <= u32::MAX,
        ensures
            final(self)@ == old(self)@ + spec_bottom(index0, index1, index2),
    {
        self.0.push(index0 as u32 * VERTEX_PER_NODE + Self::OFFSET_BOTTOM);
        self.0.push(index1 as u32 * VERTEX_PER_NODE + Self::OFFSET_BOTTOM);
        self.0.push(index2 as u32 * VERTEX_PER_NODE + Self::OFFSET_BOTTOM);
        assert(self@ =~= old(self)@ + spec_bottom(index0, index1, index2));
    }

    /// Adds the two side triangles between the connected nodes `index0`
    /// and `index1`.
    pub fn add_side_triangle_pair(&mut self, index0: usize, index1: usize)
        requires
            6 * index0 + 3 <= u32::MAX,
            6 * index1 + 4 <= u32::MAX,
        ensures
            final(self)@ == old(self)@ + spec_side(index0, index1),
    {
        let i0 = index0 as u32 * VERTEX_PER_NODE;
        let i1 = index1 as u32 * VERTEX_PER_NODE;
        self.0.push(i0 + Self::OFFSET_BOTTOM_SIDE_A);
        self.0.push(i0 + Self::OFFSET_TOP_SIDE_A);
        self.0.push(i1 + Self::OFFSET_BOTTOM_SIDE_B);
        self.0.push(i0 + Self::OFFSET_TOP_SIDE_A);
        self.0.push(i1 + Self::OFFSET_TOP_SIDE_B);
        self.0.push(i1 + Self::OFFSET_BOTTOM_SIDE_B);
        assert(self@ =~= old(self)@ + spec_side(index0, index1));
    }
}

/// Whether node `n` lies in the closed triangle `p1`, `p2`, `p3` wound in the
/// convex direction.
fn inside(p1: Position, p2: Position, p3: Position, pn: Position, convex: Turn) -> (r: bool)
    ensures
        r == spec_inside(p1, p2, p3, pn, convex),
{
    let c1 = turn_cross(p1, p2, pn);
    let c2 = turn_cross(p2, p3, pn);
    let c3 = turn_cross(p3, p1, pn);
    if convex == Turn::Clockwise {
        c1 >= 0 && c2 >= 0 && c3 >= 0
    } else {
        c1 <= 0 && c2 <= 0 && c3 <= 0
    }
}

/// Whether no other node of the ring lies in the ear `prev`, `curr`, `next`:
/// the `count` nodes walked from `start` are checked in order.
pub fn ear_is_empty(
    nodes: &NodeList,
    start: usize,
    count: usize,
    prev: usize,
    curr: usize,
    next: usize,
    convex: Turn,
) -> (r: bool)
    requires
        links_in_range(nodes@),
        start < nodes@.len(),
        prev < nodes@.len(),
        curr < nodes@.len(),
        next < nodes@.len(),
    ensures
        r == spec_ear_is_empty(
            nodes@,
            start,
            count,
            prev,
            curr,
            next,
            convex,
        ),
{
    let p_1 = nodes.get(prev).position;
    let p_2 = nodes.get(curr).position;
    let p_3 = nodes.get(next).position;
    let mut n = start;
    let mut i: usize = 0;
    while i < count
        invariant
            links_in_range(nodes@),
            start < nodes@.len(),
            prev < nodes@.len(),
            curr < nodes@.len(),
            next < nodes@.len(),
            p_1 == nodes@[prev as int].position,
            p_2 == nodes@[curr as int].position,
            p_3 == nodes@[next as int].position,
            i <= count,
            n == spec_walk(nodes@, start, i as nat),
            forall|k: nat|
                k < i ==> !spec_blocks(
                    nodes@,
                    prev,
                    curr,
                    next,
                    #[trigger] spec_walk(nodes@, start, k),
                    convex,
                ),
        decreases count - i,
    {
        proof {
            lemma_walk_in_range(nodes@, start, i as nat);
        }
        if !(n == prev || n == curr || n == next) {
            let p_n = nodes.get(n).position;
            if inside(p_1, p_2, p_3, p_n, convex) {
                assert(spec_blocks(nodes@, prev, curr, next, spec_walk(nodes@, start, i as nat), convex));
                return false;
            }
        }
        n = nodes.get(n).connection.next;
        i = i + 1;
        proof {
            assert(n == spec_walk(nodes@, start, i as nat));
        }
    }
    true
}

/// The clipping state at the start of the triangulation.
pub open spec fn spec_clip_start(nodes: Seq<Node>, queue: Seq<usize>) -> ClipState {
    ClipState { nodes, queue, start: 0, count: nodes.len() as usize, out: Seq::empty() }
}

/// Cuts ears off the ring until a triangle is left, adding the top and
/// bottom triangles of each ear and of the last triangle. Returns false, with
/// the triangulation unfinished, exactly when the clipping would never
/// finish: the queue of convex corners ran empty, or every queued corner was
/// tried once in a row without an ear being cut.
pub fn clip_ears(
    nodes_temp: &mut NodeList,
    convex_list: &mut VecDeque<usize>,
    convex_turn: Turn,
    mesh_indices: &mut BaseMeshIndices,
) -> (done: bool)
    requires
        4 <= old(nodes_temp)@.len() <= MAX_NODES,
        clip_wf(spec_clip_start(old(nodes_temp)@, old(convex_list)@), old(nodes_temp)@.len()),
    ensures
        done == spec_clip_finishes(spec_clip_start(old(nodes_temp)@, old(convex_list)@), convex_turn),
        done ==> final(mesh_indices)@ == old(mesh_indices)@ + spec_clip_output(
            spec_clip_start(old(nodes_temp)@, old(convex_list)@),
            convex_turn,
        ),
{
    let n = nodes_temp.len();
    let ghost init = spec_clip_start(nodes_temp@, convex_list@);
    let ghost prefix = mesh_indices@;
    let ghost convex = convex_turn;
    let mut start: usize = 0;
    let mut count: usize = n;
    let mut misses: usize = 0;
    let ghost mut steps: nat = 0;
    let ghost mut streak: ClipState = init;
    proof {
        lemma_rotate_full(init.queue);
        assert(init.out + Seq::<u32>::empty() =~= init.out);
    }
    while count > 3
        invariant
            n == nodes_temp@.len(),
            4 <= n <= MAX_NODES,
            init == spec_clip_start(old(nodes_temp)@, old(convex_list)@),
            clip_wf(init, n as nat),
            ({
                let st = spec_clip_iter(init, convex, steps);
                &&& nodes_temp@ == st.nodes
                &&& convex_list@ == st.queue
                &&& start == st.start
                &&& count == st.count
                &&& mesh_indices@ == prefix + st.out
                &&& clip_wf(st, n as nat)
                &&& misses <= steps
                &&& streak == spec_clip_iter(init, convex, (steps - misses) as nat)
                &&& st.nodes == streak.nodes
                &&& st.start == streak.start
                &&& st.count == streak.count
                &&& st.out == streak.out
                &&& streak.queue.len() == st.queue.len()
                &&& misses < st.queue.len() || misses == 0
                &&& st.queue == spec_rotate(streak.queue, misses as int)
            }),
            prefix == old(mesh_indices)@,
            convex == convex_turn,
        decreases count, convex_list@.len() - misses,
    {
        let ghost st = spec_clip_iter(init, convex, steps);
        proof {
            lemma_iter_succ(init, convex, steps);
        }
        if convex_list.len() == 0 {
            proof {
                assert forall|k: nat|
                    #![trigger spec_clip_iter(spec_clip_iter(init, convex, steps), convex, k)]
                    spec_clip_iter(spec_clip_iter(init, convex, steps), convex, k).count > 3 by {
                    lemma_empty_queue_stuck(st, convex, k);
                }
                lemma_never_finishes(init, convex, steps);
            }
            return false;
        }
        let curr_i = match convex_list.pop_front() {
            Some(c) => c,
            None => {
                return false;
            },
        };
        proof {
            assert(curr_i < n);
        }
        let prev_i = nodes_temp.get(curr_i).connection.prev;
        let next_i = nodes_temp.get(curr_i).connection.next;
        let triangle_empty = ear_is_empty(nodes_temp, start, count, prev_i, curr_i, next_i, convex_turn);
        proof {
            assert(spec_ear_is_empty(st.nodes, st.start, st.count, prev_i, curr_i, next_i, convex) == triangle_empty);
        }
        if triangle_empty {
            if convex_turn == Turn::Clockwise {
                mesh_indices.add_top_triangle(prev_i, next_i, curr_i);
                mesh_indices.add_bottom_triangle(prev_i, curr_i, next_i);
            } else {
                mesh_indices.add_top_triangle(prev_i, curr_i, next_i);
                mesh_indices.add_bottom_triangle(prev_i, next_i, curr_i);
            }
            let curr_next = nodes_temp.get(curr_i).connection.next;
            let pn = nodes_temp.get(prev_i);
            nodes_temp.set(prev_i, Node { connection: Connection { next: curr_next, ..pn.connection }, ..pn });
            let curr_prev = nodes_temp.get(curr_i).connection.prev;
            let nn = nodes_temp.get(next_i);
            nodes_temp.set(next_i, Node { connection: Connection { prev: curr_prev, ..nn.connection }, ..nn });
            proof {
                assert(nodes_temp@ =~= spec_unlink(st.nodes, prev_i, curr_i, next_i));
                lemma_step_wf(st, convex, n as nat);
            }
            if nodes_temp.get(prev_i).turn != convex_turn {
                if nodes_temp.is_turn_changed(prev_i) {
                    convex_list.push_back(prev_i);
                }
            }
            if nodes_temp.get(next_i).turn != convex_turn {
                if nodes_temp.is_turn_changed(next_i) {
                    convex_list.push_back(next_i);
                }
            }
            if curr_i == start {
                start = nodes_temp.get(curr_i).connection.next;
            }
            count = count - 1;
            misses = 0;
            proof {
                let t = spec_clip_step(st, convex);
                assert(mesh_indices@ =~= prefix + t.out);
                assert(nodes_temp@ == t.nodes);
                assert(convex_list@ == t.queue);
                steps = steps + 1;
                streak = t;
                lemma_rotate_full(t.queue);
            }
        } else {
            convex_list.push_back(curr_i);
            misses = misses + 1;
            proof {
                let t = spec_clip_step(st, convex);
                lemma_step_wf(st, convex, n as nat);
                lemma_rotate_step(streak.queue, (misses - 1) as int);
                assert(convex_list@ == t.queue);
                steps = steps + 1;
            }
            if misses == convex_list.len() {
                proof {
                    let t = spec_clip_iter(init, convex, steps);
                    lemma_rotate_full(streak.queue);
                    assert(t.queue =~= streak.queue);
                    assert(t == streak);
                    let m = (steps - misses) as nat;
                    lemma_iter_add(init, convex, m, misses as nat);
                    assert(spec_clip_iter(streak, convex, misses as nat) == streak);
                    assert forall|k: nat|
                        #![trigger spec_clip_iter(spec_clip_iter(init, convex, m), convex, k)]
                        spec_clip_iter(spec_clip_iter(init, convex, m), convex, k).count > 3 by {
                        lemma_cycle_stuck(streak, convex, misses as nat, k);
                    }
                    lemma_never_finishes(init, convex, m);
                }
                return false;
            }
        }
    }
    let ghost st = spec_clip_iter(init, convex, steps);
    proof {
        lemma_clip_result(init, convex, steps);
    }
    let start_prev_i = nodes_temp.get(start).connection.prev;
    let start_next_i = nodes_temp.get(start).connection.next;
    if convex_turn == Turn::Clockwise {
        mesh_indices.add_top_triangle(start, start_prev_i, start_next_i);
        mesh_indices.add_bottom_triangle(start, start_next_i, start_prev_i);
    } else {
        mesh_indices.add_top_triangle(start, start_next_i, start_prev_i);
        mesh_indices.add_bottom_triangle(start, start_prev_i, start_next_i);
    }
    proof {
        assert(mesh_indices@ =~= prefix + spec_clip_output(init, convex));
    }
    true
}


/// The mesh data of a base.
pub struct BaseMesh {
    pub vertices: Vec<Vertex>,
    pub normals: Vec<Normal>,
    pub indices: Vec<u32>,
}

/// The polygon state once the turns of the first and of the last node are
/// computed (and listed, if they were not known).
pub open spec fn spec_prepared(nodes: Seq<Node>, cw: Seq<usize>, ccw: Seq<usize>) -> (
    Seq<Node>,
    Seq<usize>,
    Seq<usize>,
) {
    let (n1, c1, d1) = spec_calc_turn(nodes, cw, ccw, 0);
    spec_calc_turn(n1, c1, d1, nodes.len() - 1)
}

/// The turn of the convex corners: the one that more corners make (with a
/// tie, counter clockwise). An outline walked clockwise has more clockwise
/// corners.
pub open spec fn spec_convex_turn(cw: Seq<usize>, ccw: Seq<usize>) -> Turn {
    if cw.len() > ccw.len() {
        Turn::Clockwise
    } else {
        Turn::CounterClockwise
    }
}

/// The corners listed under the convex turn.
pub open spec fn spec_convex_list(cw: Seq<usize>, ccw: Seq<usize>) -> Seq<usize> {
    if cw.len() > ccw.len() {
        cw
    } else {
        ccw
    }
}

/// What `build` makes of a polygon state, when the ear clipping finishes:
/// the base (the nodes with all turns known, the convex turn) and its mesh.
pub open spec fn spec_build_ok(
    nodes: Seq<Node>,
    cw: Seq<usize>,
    ccw: Seq<usize>,
    base: Base,
    mesh: BaseMesh,
) -> bool {
    let (n2, cw2, ccw2) = spec_prepared(nodes, cw, ccw);
    let convex = spec_convex_turn(cw2, ccw2);
    let init = spec_clip_start(nodes, spec_convex_list(cw2, ccw2));
    &&& base.nodes@ == n2
    &&& base.convex_turn == convex
    &&& mesh.vertices@ == spec_vertices(n2, n2.len())
    &&& mesh.normals@ == spec_normals(n2, convex, n2.len())
    &&& mesh.indices@ == spec_sides(n2, convex, n2.len()) + spec_clip_output(init, convex)
}

/// Whether `build` finishes on a polygon state: its ear clipping does.
pub open spec fn spec_build_finishes(nodes: Seq<Node>, cw: Seq<usize>, ccw: Seq<usize>) -> bool {
    let (n2, cw2, ccw2) = spec_prepared(nodes, cw, ccw);
    spec_clip_finishes(
        spec_clip_start(nodes, spec_convex_list(cw2, ccw2)),
        spec_convex_turn(cw2, ccw2),
    )
}

impl<P: PrevMove> BaseBuilder<Polygon<P>> {
    /// Calculates the mesh data (vertices, normals, indices) of the base,
    /// using ear clipping to triangulate the top and the bottom face.
    ///
    /// Returns `None` exactly when the ear clipping would never finish.
    pub fn build(self) -> (r: Option<(Base, BaseMesh)>)
        requires
            polygon_shape(self.geometry.nodes@, self.geometry.cw_list@, self.geometry.ccw_list@),
            self.geometry.nodes@.len() <= MAX_NODES,
        ensures
            r is Some == spec_build_finishes(
                self.geometry.nodes@,
                self.geometry.cw_list@,
                self.geometry.ccw_list@,
            ),
            r matches Some((base, mesh)) ==> spec_build_ok(
                self.geometry.nodes@,
                self.geometry.cw_list@,
                self.geometry.ccw_list@,
                base,
                mesh,
            ),
            r matches Some((base, mesh)) ==> base.wf(),
    {
        let mut geometry = self.geometry;
        let ghost nodes0 = geometry.nodes@;
        let nodes_len = geometry.nodes.len();
        let mut nodes_temp = geometry.nodes.duplicate();
        let per_node = VERTEX_PER_NODE as usize;
        assert(nodes_len * per_node <= usize::MAX) by (nonlinear_arith)
            requires
                per_node == 6,
                nodes_len <= MAX_NODES,
                6 * MAX_NODES <= u32::MAX,
                u32::MAX <= usize::MAX,
        ;
        let vertex_count = nodes_len * per_node;
        let mut mesh_vertices: Vec<Vertex> = Vec::with_capacity(vertex_count);
        let mut mesh_normals = BaseMeshNormals::with_capacity(vertex_count);
        // Room for the 12 n - 12 indices: two top and bottom triangles per
        // ear and two side triangles per node; where a usize cannot count
        // that many, as much room as a usize can ask for.
        let index_count = if nodes_len <= usize::MAX / 12 {
            2 * (nodes_len - 2) * INDEX_PER_TRIANGLE + 2 * nodes_len * INDEX_PER_TRIANGLE
        } else {
            usize::MAX
        };
        let mut mesh_indices = BaseMeshIndices::with_capacity(index_count);

        // The turns of the first and of the last node
        geometry.calc_node_turn(0);
        proof {
            assert(crate::nodes::is_ring(geometry.nodes@)) by {
                let s = geometry.nodes@;
                assert forall|i: int| 0 <= i < s.len() implies {
                    &&& (#[trigger] s[i]).connection.next == (if i + 1 == s.len() { 0 } else { i + 1 })
                    &&& s[i].connection.prev == (if i == 0 { s.len() - 1 } else { i - 1 })
                } by {
                    assert(s[i].connection == nodes0[i].connection);
                }
            }
        }
        geometry.calc_node_turn(nodes_len - 1);
        let ghost n2 = geometry.nodes@;
        proof {
            assert forall|j: int| 0 <= j < n2.len() implies (#[trigger] n2[j]).connection
                == nodes0[j].connection && n2[j].position == nodes0[j].position by {
            }
        }

        // Where more corners turn clockwise, the outline runs clockwise and
        // its clockwise corners are convex; the others start out as reflex.
        let Polygon { nodes, cw_list, ccw_list, .. } = geometry;
        let ghost cw2 = cw_list@;
        let ghost ccw2 = ccw_list@;
        let (convex_turn, mut convex_list) = if cw_list.len() > ccw_list.len() {
            (Turn::Clockwise, cw_list)
        } else {
            (Turn::CounterClockwise, ccw_list)
        };

        // Six vertices per node, and the two side triangles to its next node
        let mut i: usize = 0;
        while i < nodes_len
            invariant
                nodes@ == n2,
                nodes_len == n2.len(),
                4 <= nodes_len <= MAX_NODES,
                links_in_range(n2),
                i <= nodes_len,
                mesh_vertices@ == spec_vertices(n2, i as nat),
                mesh_normals@ == spec_normals(n2, convex_turn, i as nat),
                mesh_indices@ == spec_sides(n2, convex_turn, i as nat),
            decreases nodes_len - i,
        {
            let node = nodes.get(i);
            let x = node.position.x;
            let z = node.position.z;
            let top = Vertex { x, y: HALF_SIZE_Y, z };
            let bottom = Vertex { x, y: -HALF_SIZE_Y, z };
            mesh_vertices.push(top);
            mesh_vertices.push(top);
            mesh_vertices.push(top);
            mesh_vertices.push(bottom);
            mesh_vertices.push(bottom);
            mesh_vertices.push(bottom);
            let prev_i = node.connection.prev;
            let next_i = node.connection.next;
            let prev_p = nodes.get(prev_i).position;
            let next_p = nodes.get(next_i).position;
            if convex_turn == Turn::Clockwise {
                mesh_indices.add_side_triangle_pair(i, next_i);
                mesh_normals.add_from_positions(next_p, node.position, prev_p);
            } else {
                mesh_indices.add_side_triangle_pair(next_i, i);
                mesh_normals.add_from_positions(prev_p, node.position, next_p);
            }
            proof {
                assert(mesh_vertices@ =~= spec_vertices(n2, (i + 1) as nat));
            }
            i = i + 1;
        }

        proof {
            let init = spec_clip_start(nodes0, convex_list@);
            assert forall|k: int| 0 <= k < init.queue.len() implies (#[trigger] init.queue[k]) < nodes_len by {
            }
            assert(links_in_range(nodes0)) by {
                assert forall|j: int| 0 <= j < nodes0.len() implies {
                    &&& (#[trigger] nodes0[j]).connection.prev < nodes0.len()
                    &&& nodes0[j].connection.next < nodes0.len()
                } by {
                    assert(n2[j].connection == nodes0[j].connection);
                }
            }
            assert(clip_wf(init, nodes_len as nat));
        }
        let done = clip_ears(&mut nodes_temp, &mut convex_list, convex_turn, &mut mesh_indices);
        if !done {
            return None;
        }
        let base = Base { nodes, convex_turn };
        proof {
            assert(is_ring(n2)) by {
                assert forall|i: int| 0 <= i < n2.len() implies {
                    &&& (#[trigger] n2[i]).connection.next == (if i + 1 == n2.len() { 0 } else { i + 1 })
                    &&& n2[i].connection.prev == (if i == 0 { n2.len() - 1 } else { i - 1 })
                } by {
                    assert(n2[i].connection == nodes0[i].connection);
                }
            }
        }
        let mesh = BaseMesh { vertices: mesh_vertices, normals: mesh_normals.0, indices: mesh_indices.0 };
        Some((base, mesh))
    }
}


proof fn lemma_vertices_len(nodes: Seq<Node>, k: nat)
    ensures
        spec_vertices(nodes, k).len() == 6 * k,
    decreases k,
{
    if k > 0 {
        lemma_vertices_len(nodes, (k - 1) as nat);
    }
}

proof fn lemma_normals_len(nodes: Seq<Node>, convex: Turn, k: nat)
    ensures
        spec_normals(nodes, convex, k).len() == 6 * k,
    decreases k,
{
    if k > 0 {
        lemma_normals_len(nodes, convex, (k - 1) as nat);
    }
}

proof fn lemma_sides(nodes: Seq<Node>, convex: Turn, k: nat)
    requires
        links_in_range(nodes),
        k <= nodes.len(),
        nodes.len() <= MAX_NODES,
    ensures
        spec_sides(nodes, convex, k).len() == 6 * k,
        forall|j: int|
            0 <= j < spec_sides(nodes, convex, k).len() ==> (#[trigger] spec_sides(
                nodes,
                convex,
                k,
            )[j]) < 6 * nodes.len(),
    decreases k,
{
    if k > 0 {
        lemma_sides(nodes, convex, (k - 1) as nat);
        let prev = spec_sides(nodes, convex, (k - 1) as nat);
        let block = spec_node_sides(nodes, k - 1, convex);
        let all = spec_sides(nodes, convex, k);
        assert(nodes[k - 1].connection.next < nodes.len());
        assert forall|j: int| 0 <= j < all.len() implies (#[trigger] all[j]) < 6 * nodes.len() by {
            if j < prev.len() {
                assert(all[j] == prev[j]);
            } else {
                assert(all[j] == block[j - prev.len()]);
            }
        }
    }
}

/// Computing a turn keeps the links and the well-formed turn lists.
proof fn lemma_calc_turn_wf(nodes: Seq<Node>, cw: Seq<usize>, ccw: Seq<usize>, i: int)
    requires
        0 <= i < nodes.len(),
        nodes.len() <= MAX_NODES,
        links_in_range(nodes),
        lists_wf(nodes, cw, ccw),
    ensures
        ({
            let (n2, cw2, ccw2) = spec_calc_turn(nodes, cw, ccw, i);
            &&& n2.len() == nodes.len()
            &&& forall|j: int| 0 <= j < nodes.len() ==> (#[trigger] n2[j]).connection == nodes[j].connection
            &&& links_in_range(n2)
            &&& lists_wf(n2, cw2, ccw2)
        }),
{
    let (n2, cw2, ccw2) = spec_calc_turn(nodes, cw, ccw, i);
    assert forall|j: int| 0 <= j < n2.len() implies {
        &&& (#[trigger] n2[j]).connection.prev < n2.len()
        &&& n2[j].connection.next < n2.len()
    } by {
        assert(n2[j].connection == nodes[j].connection);
    }
    if nodes[i].turn == Turn::Undefined {
        assert(!cw.contains(i as usize));
        assert(!ccw.contains(i as usize));
    }
    assert forall|j: int|
        0 <= j < n2.len() && (#[trigger] n2[j]).turn != Turn::Undefined implies cw2.contains(
        j as usize,
    ) || ccw2.contains(j as usize) by {
        if j != i {
            if cw.contains(j as usize) {
                let k = choose|k: int| 0 <= k < cw.len() && cw[k] == j as usize;
                assert(cw2[k] == j as usize);
            } else {
                let k = choose|k: int| 0 <= k < ccw.len() && ccw[k] == j as usize;
                assert(ccw2[k] == j as usize);
            }
        } else if nodes[i].turn == Turn::Undefined {
            if cw2.len() > cw.len() {
                assert(cw2[cw2.len() - 1] == i as usize);
            } else {
                assert(ccw2[ccw2.len() - 1] == i as usize);
            }
        }
    }
}

/// Before the ear clipping, every node's turn is known and every node is
/// listed under exactly one of the two turns.
pub proof fn lemma_prepared_lists(nodes: Seq<Node>, cw: Seq<usize>, ccw: Seq<usize>)
    requires
        polygon_shape(nodes, cw, ccw),
        nodes.len() <= MAX_NODES,
    ensures
        ({
            let (n2, cw2, ccw2) = spec_prepared(nodes, cw, ccw);
            forall|i: int|
                0 <= i < nodes.len() ==> {
                    &&& (#[trigger] n2[i]).turn != Turn::Undefined
                    &&& cw2.contains(i as usize) != ccw2.contains(i as usize)
                }
        }),
{
    let n = nodes.len();
    let (n1, c1, d1) = spec_calc_turn(nodes, cw, ccw, 0);
    lemma_calc_turn_wf(nodes, cw, ccw, 0);
    lemma_calc_turn_wf(n1, c1, d1, n - 1);
    let (n2, cw2, ccw2) = spec_prepared(nodes, cw, ccw);
    assert forall|i: int| 0 <= i < n implies {
        &&& (#[trigger] n2[i]).turn != Turn::Undefined
        &&& cw2.contains(i as usize) != ccw2.contains(i as usize)
    } by {
        if 0 < i < n - 1 {
            assert(nodes[i].turn != Turn::Undefined);
            assert(n1[i].turn == nodes[i].turn);
        }
        assert(n2[i].turn != Turn::Undefined);
        if cw2.contains(i as usize) && ccw2.contains(i as usize) {
            let a = choose|a: int| 0 <= a < cw2.len() && cw2[a] == i as usize;
            let b = choose|b: int| 0 <= b < ccw2.len() && ccw2[b] == i as usize;
            assert(cw2[a] != ccw2[b]);
        }
    }
}

/// A finished build makes six vertices and six normals per node, and
/// `12 n - 12` indices for `n` nodes: two side triangles per node and a top
/// and a bottom triangle for each of the `n - 2` ears; every index names one
/// of the vertices.
pub proof fn lemma_build_sizes(
    nodes: Seq<Node>,
    cw: Seq<usize>,
    ccw: Seq<usize>,
    base: Base,
    mesh: BaseMesh,
)
    requires
        polygon_shape(nodes, cw, ccw),
        nodes.len() <= MAX_NODES,
        spec_build_finishes(nodes, cw, ccw),
        spec_build_ok(nodes, cw, ccw, base, mesh),
    ensures
        base.nodes@.len() == nodes.len(),
        mesh.vertices@.len() == 6 * nodes.len(),
        mesh.normals@.len() == 6 * nodes.len(),
        mesh.indices@.len() == 12 * nodes.len() - 12,
        forall|k: int| 0 <= k < mesh.indices@.len() ==> (#[trigger] mesh.indices@[k]) < 6 * nodes.len(),
{
    let n = nodes.len();
    let (n1, c1, d1) = spec_calc_turn(nodes, cw, ccw, 0);
    lemma_calc_turn_wf(nodes, cw, ccw, 0);
    lemma_calc_turn_wf(n1, c1, d1, n - 1);
    let (n2, cw2, ccw2) = spec_prepared(nodes, cw, ccw);
    let convex = spec_convex_turn(cw2, ccw2);
    let init = spec_clip_start(nodes, spec_convex_list(cw2, ccw2));
    lemma_vertices_len(n2, n);
    lemma_normals_len(n2, convex, n);
    lemma_sides(n2, convex, n);
    assert(links_in_range(nodes)) by {
        assert forall|j: int| 0 <= j < n implies {
            &&& (#[trigger] nodes[j]).connection.prev < n
            &&& nodes[j].connection.next < n
        } by {
            assert(n2[j].connection == nodes[j].connection);
        }
    }
    assert(clip_wf(init, n));
    let c = choose|c: nat| (#[trigger] spec_clip_iter(init, convex, c)).count <= 3;
    lemma_iter_wf(init, convex, n, c);
    let r = spec_clip_result(init, convex);
    let last = spec_last_triangle(r, convex);
    let out = spec_clip_output(init, convex);
    assert(r.count == 3);
    assert(r.nodes[r.start as int].connection.prev < n);
    assert(r.nodes[r.start as int].connection.next < n);
    assert(last.len() == 6);
    assert forall|k: int| 0 <= k < last.len() implies (#[trigger] last[k]) < 6 * n by {}
    assert forall|k: int| 0 <= k < out.len() implies (#[trigger] out[k]) < 6 * n by {
        if k < r.out.len() {
            assert(out[k] == r.out[k]);
        } else {
            assert(out[k] == last[k - r.out.len()]);
        }
    }
    let sides = spec_sides(n2, convex, n);
    assert forall|k: int| 0 <= k < mesh.indices@.len() implies (#[trigger] mesh.indices@[k]) < 6 * n by {
        if k < sides.len() {
            assert(mesh.indices@[k] == sides[k]);
        } else {
            assert(mesh.indices@[k] == out[k - sides.len()]);
        }
    }
}

proof fn lemma_normals_at(nodes: Seq<Node>, convex: Turn, k: nat, i: int, off: int)
    requires
        0 <= i < k,
        0 <= off < 6,
    ensures
        spec_normals(nodes, convex, k)[6 * i + off] == spec_node_normals(nodes, i, convex)[off],
    decreases k,
{
    lemma_normals_len(nodes, convex, (k - 1) as nat);
    if i < k - 1 {
        lemma_normals_at(nodes, convex, (k - 1) as nat, i, off);
    }
}

/// Preparing the turns keeps the ring and the positions.
proof fn lemma_prepared_ring(nodes: Seq<Node>, cw: Seq<usize>, ccw: Seq<usize>)
    requires
        polygon_shape(nodes, cw, ccw),
        nodes.len() <= MAX_NODES,
    ensures
        spec_prepared(nodes, cw, ccw).0.len() == nodes.len(),
        is_ring(spec_prepared(nodes, cw, ccw).0),
        forall|i: int|
            0 <= i < nodes.len() ==> (#[trigger] spec_prepared(nodes, cw, ccw).0[i]).position
                == nodes[i].position,
{
    let n = nodes.len();
    let (n1, c1, d1) = spec_calc_turn(nodes, cw, ccw, 0);
    lemma_calc_turn_wf(nodes, cw, ccw, 0);
    lemma_calc_turn_wf(n1, c1, d1, n - 1);
    let n2 = spec_prepared(nodes, cw, ccw).0;
    assert forall|i: int| 0 <= i < n2.len() implies {
        &&& (#[trigger] n2[i]).connection.next == (if i + 1 == n2.len() { 0 } else { i + 1 })
        &&& n2[i].connection.prev == (if i == 0 { n2.len() - 1 } else { i - 1 })
    } by {
        assert(n2[i].connection == nodes[i].connection);
    }
}

/// Each vertex of the side triangles from node `i` to its next node carries
/// the outward normal of that side, when the side runs along an axis.
proof fn lemma_side_outward_at(n2: Seq<Node>, convex: Turn, normals: Seq<Normal>, i: int, k: int)
    requires
        is_ring(n2),
        n2.len() <= MAX_NODES,
        normals == spec_normals(n2, convex, n2.len()),
        0 <= i < n2.len(),
        0 <= k < 6,
        axis_edge(n2[i].position, n2[n2[i].connection.next as int].position),
    ensures
        is_outward(
            normals[spec_node_sides(n2, i, convex)[k] as int],
            n2[i].position,
            n2[n2[i].connection.next as int].position,
            convex,
        ),
{
    let n = n2.len();
    let j = n2[i].connection.next as int;
    let pi = n2[i].position;
    let pj = n2[j].position;
    assert(0 <= j < n);
    assert(n2[j].connection.prev == i);
    lemma_side_normal(pi, pj);
    lemma_side_normal(pj, pi);
    let s = spec_node_sides(n2, i, convex);
    if convex == Turn::Clockwise {
        lemma_normals_at(n2, convex, n, i, 1);
        lemma_normals_at(n2, convex, n, i, 3);
        lemma_normals_at(n2, convex, n, j, 2);
        lemma_normals_at(n2, convex, n, j, 4);
        assert(s[k] == 6 * i + 1 || s[k] == 6 * i + 3 || s[k] == 6 * j + 2 || s[k] == 6 * j + 4);
    } else {
        lemma_normals_at(n2, convex, n, j, 1);
        lemma_normals_at(n2, convex, n, j, 3);
        lemma_normals_at(n2, convex, n, i, 2);
        lemma_normals_at(n2, convex, n, i, 4);
        assert(s[k] == 6 * j + 1 || s[k] == 6 * j + 3 || s[k] == 6 * i + 2 || s[k] == 6 * i + 4);
    }
}

/// The normals of a built base: the top vertex of every node faces up, the
/// bottom vertex down, and every vertex of the two side triangles from a
/// node to its next node carries the outward normal of that side, wherever
/// the side runs along an axis.
pub proof fn lemma_build_normals(
    nodes: Seq<Node>,
    cw: Seq<usize>,
    ccw: Seq<usize>,
    base: Base,
    mesh: BaseMesh,
)
    requires
        polygon_shape(nodes, cw, ccw),
        nodes.len() <= MAX_NODES,
        spec_build_ok(nodes, cw, ccw, base, mesh),
    ensures
        forall|i: int|
            0 <= i < nodes.len() ==> (#[trigger] normals_of(mesh.normals@, i))[0] == up()
                && normals_of(mesh.normals@, i)[5] == down(),
        forall|i: int, k: int|
            0 <= i < nodes.len() && 0 <= k < 6 && axis_edge(
                #[trigger] base.nodes@[i].position,
                base.nodes@[base.nodes@[i].connection.next as int].position,
            ) ==> is_outward(
                mesh.normals@[#[trigger] spec_node_sides(base.nodes@, i, base.convex_turn)[k] as int],
                base.nodes@[i].position,
                base.nodes@[base.nodes@[i].connection.next as int].position,
                base.convex_turn,
            ),
{
    let n = nodes.len();
    lemma_prepared_ring(nodes, cw, ccw);
    let n2 = base.nodes@;
    let convex = base.convex_turn;
    let normals = mesh.normals@;
    assert(normals == spec_normals(n2, convex, n2.len()));
    lemma_normals_len(n2, convex, n);
    assert forall|i: int| 0 <= i < n implies (#[trigger] normals_of(normals, i))[0] == up()
        && normals_of(normals, i)[5] == down() by {
        lemma_normals_at(n2, convex, n, i, 0);
        lemma_normals_at(n2, convex, n, i, 5);
    }
    assert forall|i: int, k: int|
        0 <= i < n && 0 <= k < 6 && axis_edge(
            #[trigger] n2[i].position,
            n2[n2[i].connection.next as int].position,
        ) implies is_outward(
        normals[#[trigger] spec_node_sides(n2, i, convex)[k] as int],
        n2[i].position,
        n2[n2[i].connection.next as int].position,
        convex,
    ) by {
        lemma_side_outward_at(n2, convex, normals, i, k);
    }
}

/// The corners that preparing the turns lists anew had no turn before.
proof fn lemma_prepared_match(nodes: Seq<Node>, cw: Seq<usize>, ccw: Seq<usize>)
    requires
        polygon_shape(nodes, cw, ccw),
        nodes.len() <= MAX_NODES,
    ensures
        ({
            let (n2, cw2, ccw2) = spec_prepared(nodes, cw, ccw);
            &&& forall|k: int|
                0 <= k < cw2.len() ==> (nodes[#[trigger] cw2[k] as int].turn == Turn::Clockwise
                    || nodes[cw2[k] as int].turn == Turn::Undefined)
            &&& forall|k: int|
                0 <= k < ccw2.len() ==> (nodes[#[trigger] ccw2[k] as int].turn
                    == Turn::CounterClockwise || nodes[ccw2[k] as int].turn == Turn::Undefined)
        }),
{
    let n = nodes.len();
    let (n1, c1, d1) = spec_calc_turn(nodes, cw, ccw, 0);
    let (n2, cw2, ccw2) = spec_prepared(nodes, cw, ccw);
    assert(n1[n - 1].turn == nodes[n - 1].turn);
    assert forall|k: int| 0 <= k < c1.len() implies (nodes[#[trigger] c1[k] as int].turn
        == Turn::Clockwise || nodes[c1[k] as int].turn == Turn::Undefined) by {
        if k < cw.len() {
            assert(c1[k] == cw[k]);
        }
    }
    assert forall|k: int| 0 <= k < d1.len() implies (nodes[#[trigger] d1[k] as int].turn
        == Turn::CounterClockwise || nodes[d1[k] as int].turn == Turn::Undefined) by {
        if k < ccw.len() {
            assert(d1[k] == ccw[k]);
        }
    }
    assert forall|k: int| 0 <= k < cw2.len() implies (nodes[#[trigger] cw2[k] as int].turn
        == Turn::Clockwise || nodes[cw2[k] as int].turn == Turn::Undefined) by {
        if k < c1.len() {
            assert(cw2[k] == c1[k]);
        }
    }
    assert forall|k: int| 0 <= k < ccw2.len() implies (nodes[#[trigger] ccw2[k] as int].turn
        == Turn::CounterClockwise || nodes[ccw2[k] as int].turn == Turn::Undefined) by {
        if k < d1.len() {
            assert(ccw2[k] == d1[k]);
        }
    }
}

/// The top and bottom faces of a built base triangulate its outline: after
/// the side triangles come `n - 2` pairs of a top triangle on three
/// different nodes and the bottom triangle on the same nodes, wound the
/// other way round; and the top triangles' areas seen from above add up to
/// the outline's area, signed by the convex turn.
pub proof fn lemma_build_faces(
    nodes: Seq<Node>,
    cw: Seq<usize>,
    ccw: Seq<usize>,
    base: Base,
    mesh: BaseMesh,
)
    requires
        polygon_shape(nodes, cw, ccw),
        nodes.len() <= MAX_NODES,
        spec_build_finishes(nodes, cw, ccw),
        spec_build_ok(nodes, cw, ccw, base, mesh),
    ensures
        ({
            let n = nodes.len();
            let faces = mesh.indices@.subrange(6 * n as int, 12 * n - 12);
            &&& mesh.indices@.len() == 12 * n - 12
            &&& faces.len() == 6 * (n - 2)
            &&& groups_ok(faces)
            &&& faces_up(base.nodes@, faces, (n - 2) as nat) == convex_sign(base.convex_turn)
                * outline_area(base.nodes@)
        }),
{
    let n = nodes.len();
    let (n1, c1, d1) = spec_calc_turn(nodes, cw, ccw, 0);
    lemma_calc_turn_wf(nodes, cw, ccw, 0);
    lemma_calc_turn_wf(n1, c1, d1, n - 1);
    lemma_prepared_match(nodes, cw, ccw);
    lemma_build_sizes(nodes, cw, ccw, base, mesh);
    let (n2, cw2, ccw2) = spec_prepared(nodes, cw, ccw);
    let convex = spec_convex_turn(cw2, ccw2);
    let queue = spec_convex_list(cw2, ccw2);
    let init = spec_clip_start(nodes, queue);
    assert(queue.no_duplicates());
    assert forall|q: int| 0 <= q < queue.len() implies (#[trigger] queue[q]) < nodes.len() && (
    nodes[queue[q] as int].turn == convex || nodes[queue[q] as int].turn == Turn::Undefined) by {}
    lemma_start_inv(nodes, queue, convex);
    lemma_clip_faces(init, nodes, convex);
    let out = spec_clip_output(init, convex);
    lemma_sides(n2, convex, n);
    let sides = spec_sides(n2, convex, n);
    let faces = mesh.indices@.subrange(6 * n as int, 12 * n - 12);
    assert(faces =~= out);
    assert forall|i: int| 0 <= i < n implies (#[trigger] n2[i]).connection == nodes[i].connection
        && n2[i].position == nodes[i].position by {}
    assert(links_in_range(nodes)) by {
        assert forall|j: int| 0 <= j < n implies {
            &&& (#[trigger] nodes[j]).connection.prev < n
            &&& nodes[j].connection.next < n
        } by {
            assert(n2[j].connection == nodes[j].connection);
        }
    }
    lemma_outline_area_same(nodes, n2);
    assert forall|k: int| 0 <= k < out.len() implies (#[trigger] out[k]) < 6 * n by {
        assert(out[k] == mesh.indices@[6 * n + k]);
    }
    lemma_faces_up_same(nodes, n2, out, (n - 2) as nat);
}


/// Every node of a built base holds the turn its neighbours make it take.
pub proof fn lemma_build_turns(
    nodes: Seq<Node>,
    cw: Seq<usize>,
    ccw: Seq<usize>,
    base: Base,
    mesh: BaseMesh,
)
    requires
        polygon_shape(nodes, cw, ccw),
        nodes.len() <= MAX_NODES,
        spec_build_ok(nodes, cw, ccw, base, mesh),
    ensures
        forall|i: int|
            0 <= i < base.nodes@.len() ==> base.nodes@[i].turn == #[trigger] spec_node_turn(
                base.nodes@,
                i,
            ),
{
    let n = nodes.len();
    let n1 = spec_calc_turn(nodes, cw, ccw, 0).0;
    let n2 = base.nodes@;
    lemma_prepared_ring(nodes, cw, ccw);
    assert(n2 == spec_calc_turn(n1, spec_calc_turn(nodes, cw, ccw, 0).1, spec_calc_turn(nodes, cw, ccw, 0).2, n - 1).0);
    assert forall|j: int| 0 <= j < n implies (#[trigger] n2[j]).connection == nodes[j].connection
        && n2[j].position == nodes[j].position && n1[j].connection == nodes[j].connection
        && n1[j].position == nodes[j].position by {}
    assert forall|i: int| 0 <= i < n implies n2[i].turn == #[trigger] spec_node_turn(n2, i) by {
        let pi = nodes[i].connection.prev as int;
        let ni = nodes[i].connection.next as int;
        assert(n2[pi].position == nodes[pi].position);
        assert(n2[ni].position == nodes[ni].position);
        assert(n1[pi].position == nodes[pi].position);
        assert(n1[ni].position == nodes[ni].position);
        if 0 < i < n - 1 {
            reveal(turns_hold);
            assert(nodes[i].turn == spec_node_turn(nodes, i));
            assert(n2[i].turn == nodes[i].turn);
        }
    }
}

/// How far the triangle `a`, `b`, `c` faces the way of `n`: the dot product
/// of `n` with the triangle's normal by the right-hand rule, `(b - a) x (c - a)`.
pub open spec fn facing(a: Vertex, b: Vertex, c: Vertex, n: Normal) -> int {
    let (ux, uy, uz) = (b.x - a.x, b.y - a.y, b.z - a.z);
    let (wx, wy, wz) = (c.x - a.x, c.y - a.y, c.z - a.z);
    (uy * wz - uz * wy) * n.x + (uz * wx - ux * wz) * n.y + (ux * wy - uy * wx) * n.z
}

/// The two shapes of a side triangle between the nodes at `p` and `q`
/// (bottom of `p`, top of `p`, bottom of `q`; or top of `p`, top of `q`,
/// bottom of `q`) face `n` by `-300` times the cross product of the way
/// from `p` to `q` with `n`.
proof fn lemma_side_facing(p: Position, q: Position, n: Normal)
    requires
        n.y == 0,
    ensures
        facing(
            Vertex { x: p.x, y: (-HALF_SIZE_Y) as i32, z: p.z },
            Vertex { x: p.x, y: HALF_SIZE_Y, z: p.z },
            Vertex { x: q.x, y: (-HALF_SIZE_Y) as i32, z: q.z },
            n,
        ) == -300 * spec_cross(q.x - p.x, q.z - p.z, n.x as int, n.z as int),
        facing(
            Vertex { x: p.x, y: HALF_SIZE_Y, z: p.z },
            Vertex { x: q.x, y: HALF_SIZE_Y, z: q.z },
            Vertex { x: q.x, y: (-HALF_SIZE_Y) as i32, z: q.z },
            n,
        ) == -300 * spec_cross(q.x - p.x, q.z - p.z, n.x as int, n.z as int),
{
    let (dx, dz, nx, nz) = (q.x - p.x, q.z - p.z, n.x as int, n.z as int);
    assert((300 * dz) * nx + (0 * dx - 0 * dz) * 0 + (0 - 300 * dx) * nz == -300 * (dx * nz - dz * nx))
        by (nonlinear_arith);
    assert((0 * dz - dz * (-300)) * nx + (dz * dx - dx * dz) * 0 + (dx * (-300) - 0 * dx) * nz == -300 * (
    dx * nz - dz * nx)) by (nonlinear_arith);
}

proof fn lemma_vertices_at(nodes: Seq<Node>, k: nat, i: int, off: int)
    requires
        0 <= i < k,
        0 <= off < 6,
    ensures
        spec_vertices(nodes, k)[6 * i + off] == spec_vertex_block(nodes[i].position)[off],
    decreases k,
{
    lemma_vertices_len(nodes, (k - 1) as nat);
    if i < k - 1 {
        lemma_vertices_at(nodes, (k - 1) as nat, i, off);
    }
}

proof fn lemma_sides_at(nodes: Seq<Node>, convex: Turn, k: nat, i: int, off: int)
    requires
        0 <= i < k,
        0 <= off < 6,
        k <= nodes.len(),
        nodes.len() <= MAX_NODES,
        links_in_range(nodes),
    ensures
        spec_sides(nodes, convex, k)[6 * i + off] == spec_node_sides(nodes, i, convex)[off],
    decreases k,
{
    lemma_sides(nodes, convex, (k - 1) as nat);
    if i < k - 1 {
        lemma_sides_at(nodes, convex, (k - 1) as nat, i, off);
    }
}

/// One side triangle of a built base faces the way of the normal stored at
/// each of its vertices.
proof fn lemma_wall_at(n2: Seq<Node>, convex: Turn, mesh: BaseMesh, i: int, t: int, k: int)
    requires
        is_ring(n2),
        4 <= n2.len() <= MAX_NODES,
        convex != Turn::Undefined,
        mesh.vertices@ == spec_vertices(n2, n2.len()),
        mesh.normals@ == spec_normals(n2, convex, n2.len()),
        mesh.indices@.subrange(0, 6 * n2.len() as int) == spec_sides(n2, convex, n2.len()),
        mesh.indices@.len() >= 6 * n2.len(),
        0 <= i < n2.len(),
        0 <= t < 2,
        0 <= k < 3,
        axis_edge(n2[i].position, n2[n2[i].connection.next as int].position),
    ensures
        facing(
            mesh.vertices@[mesh.indices@[6 * i + 3 * t] as int],
            mesh.vertices@[mesh.indices@[6 * i + 3 * t + 1] as int],
            mesh.vertices@[mesh.indices@[6 * i + 3 * t + 2] as int],
            mesh.normals@[mesh.indices@[6 * i + 3 * t + k] as int],
        ) > 0,
{
    let n = n2.len();
    let j = n2[i].connection.next as int;
    let (pi, pj) = (n2[i].position, n2[j].position);
    let sides = spec_sides(n2, convex, n);
    let ns = spec_node_sides(n2, i, convex);
    lemma_sides(n2, convex, n);
    let ix = mesh.indices@;
    assert forall|m: int| 0 <= m < 6 implies ix[6 * i + m] == #[trigger] ns[m] by {
        lemma_sides_at(n2, convex, n, i, m);
        assert(ix[6 * i + m] == ix.subrange(0, 6 * n as int)[6 * i + m]);
    }
    assert(0 <= j < n);
    let bi = Vertex { x: pi.x, y: (-HALF_SIZE_Y) as i32, z: pi.z };
    let ti = Vertex { x: pi.x, y: HALF_SIZE_Y, z: pi.z };
    let bj = Vertex { x: pj.x, y: (-HALF_SIZE_Y) as i32, z: pj.z };
    let tj = Vertex { x: pj.x, y: HALF_SIZE_Y, z: pj.z };
    lemma_vertices_at(n2, n, i, 1);
    lemma_vertices_at(n2, n, i, 2);
    lemma_vertices_at(n2, n, i, 3);
    lemma_vertices_at(n2, n, i, 4);
    lemma_vertices_at(n2, n, j, 1);
    lemma_vertices_at(n2, n, j, 2);
    lemma_vertices_at(n2, n, j, 3);
    lemma_vertices_at(n2, n, j, 4);
    // the stored normal at the vertex is the outward one
    lemma_side_outward_at(n2, convex, mesh.normals@, i, 3 * t + k);
    let nv = mesh.normals@[ix[6 * i + 3 * t + k] as int];
    assert(is_outward(nv, pi, pj, convex));
    lemma_side_facing(pi, pj, nv);
    lemma_side_facing(pj, pi, nv);
    if convex == Turn::Clockwise {
        assert(ns == spec_side(i as usize, j as usize));
        if t == 0 {
            assert(mesh.vertices@[ix[6 * i] as int] == bi);
            assert(mesh.vertices@[ix[6 * i + 1] as int] == ti);
            assert(mesh.vertices@[ix[6 * i + 2] as int] == bj);
        } else {
            assert(mesh.vertices@[ix[6 * i + 3] as int] == ti);
            assert(mesh.vertices@[ix[6 * i + 4] as int] == tj);
            assert(mesh.vertices@[ix[6 * i + 5] as int] == bj);
        }
    } else {
        assert(ns == spec_side(j as usize, i as usize));
        assert(spec_cross(pi.x - pj.x, pi.z - pj.z, nv.x as int, nv.z as int) == -spec_cross(
            pj.x - pi.x,
            pj.z - pi.z,
            nv.x as int,
            nv.z as int,
        )) by (nonlinear_arith);
        if t == 0 {
            assert(mesh.vertices@[ix[6 * i] as int] == bj);
            assert(mesh.vertices@[ix[6 * i + 1] as int] == tj);
            assert(mesh.vertices@[ix[6 * i + 2] as int] == bi);
        } else {
            assert(mesh.vertices@[ix[6 * i + 3] as int] == tj);
            assert(mesh.vertices@[ix[6 * i + 4] as int] == ti);
            assert(mesh.vertices@[ix[6 * i + 5] as int] == bi);
        }
    }
}

/// The vertices of a built base: six per node, at the node's position, the
/// first three on top of the slab and the last three at its bottom.
pub proof fn lemma_build_vertices(
    nodes: Seq<Node>,
    cw: Seq<usize>,
    ccw: Seq<usize>,
    base: Base,
    mesh: BaseMesh,
)
    requires
        polygon_shape(nodes, cw, ccw),
        nodes.len() <= MAX_NODES,
        spec_build_ok(nodes, cw, ccw, base, mesh),
    ensures
        mesh.vertices@.len() == 6 * nodes.len(),
        forall|i: int, k: int|
            0 <= i < nodes.len() && 0 <= k < 6 ==> #[trigger] mesh.vertices@[6 * i + k] == (Vertex {
                x: nodes[i].position.x,
                y: if k < 3 {
                    HALF_SIZE_Y
                } else {
                    (-HALF_SIZE_Y) as i32
                },
                z: nodes[i].position.z,
            }),
{
    let n = nodes.len();
    lemma_prepared_ring(nodes, cw, ccw);
    let n2 = base.nodes@;
    lemma_vertices_len(n2, n);
    assert forall|i: int, k: int| 0 <= i < n && 0 <= k < 6 implies #[trigger] mesh.vertices@[6 * i + k]
        == Vertex {
        x: nodes[i].position.x,
        y: if k < 3 {
            HALF_SIZE_Y
        } else {
            (-HALF_SIZE_Y) as i32
        },
        z: nodes[i].position.z,
    } by {
        lemma_vertices_at(n2, n, i, k);
        assert(n2[i].position == nodes[i].position);
    }
}

/// The side walls of a built base face outwards: the six indices of node
/// `i` (the first `6 n` indices hold the walls, node by node) are two
/// triangles, each wound (right-hand rule) the way of the normal stored at
/// every one of its vertices, wherever the wall from node `i` to its next
/// node runs along an axis.
pub proof fn lemma_build_walls(
    nodes: Seq<Node>,
    cw: Seq<usize>,
    ccw: Seq<usize>,
    base: Base,
    mesh: BaseMesh,
)
    requires
        polygon_shape(nodes, cw, ccw),
        nodes.len() <= MAX_NODES,
        spec_build_ok(nodes, cw, ccw, base, mesh),
    ensures
        forall|i: int, t: int, k: int|
            0 <= i < nodes.len() && 0 <= t < 2 && 0 <= k < 3 && axis_edge(
                #[trigger] base.nodes@[i].position,
                base.nodes@[base.nodes@[i].connection.next as int].position,
            ) ==> facing(
                mesh.vertices@[mesh.indices@[6 * i + 3 * t] as int],
                mesh.vertices@[mesh.indices@[6 * i + 3 * t + 1] as int],
                mesh.vertices@[mesh.indices@[6 * i + 3 * t + 2] as int],
                mesh.normals@[#[trigger] mesh.indices@[6 * i + 3 * t + k] as int],
            ) > 0,
        forall|i: int, m: int|
            0 <= i < nodes.len() && 0 <= m < 6 ==> ({
                let x = #[trigger] mesh.indices@[6 * i + m] as int;
                &&& (x / 6 == i || x / 6 == base.nodes@[i].connection.next)
                &&& 1 <= x % 6 <= 4
            }),
{
    let n = nodes.len();
    lemma_prepared_ring(nodes, cw, ccw);
    let n2 = base.nodes@;
    let convex = base.convex_turn;
    let (a, b, c) = spec_prepared(nodes, cw, ccw);
    assert(convex == spec_convex_turn(b, c));
    assert(convex != Turn::Undefined);
    lemma_sides(n2, convex, n);
    let sides = spec_sides(n2, convex, n);
    assert(mesh.indices@.subrange(0, 6 * n as int) =~= sides);
    assert forall|i: int, t: int, k: int|
        0 <= i < n && 0 <= t < 2 && 0 <= k < 3 && axis_edge(
            #[trigger] n2[i].position,
            n2[n2[i].connection.next as int].position,
        ) implies facing(
        mesh.vertices@[mesh.indices@[6 * i + 3 * t] as int],
        mesh.vertices@[mesh.indices@[6 * i + 3 * t + 1] as int],
        mesh.vertices@[mesh.indices@[6 * i + 3 * t + 2] as int],
        mesh.normals@[#[trigger] mesh.indices@[6 * i + 3 * t + k] as int],
    ) > 0 by {
        lemma_wall_at(n2, convex, mesh, i, t, k);
    }
    assert forall|i: int, m: int| 0 <= i < n && 0 <= m < 6 implies {
        let x = #[trigger] mesh.indices@[6 * i + m] as int;
        &&& (x / 6 == i || x / 6 == n2[i].connection.next)
        &&& 1 <= x % 6 <= 4
    } by {
        lemma_sides_at(n2, convex, n, i, m);
        assert(mesh.indices@[6 * i + m] == sides[6 * i + m]);
        let j = n2[i].connection.next as int;
        assert(0 <= j < n);
        let ns = spec_node_sides(n2, i, convex);
        if convex == Turn::Clockwise {
            assert(ns == spec_side(i as usize, j as usize));
        } else {
            assert(ns == spec_side(j as usize, i as usize));
        }
        let x = mesh.indices@[6 * i + m] as int;
        assert(x == 6 * i + 1 || x == 6 * i + 2 || x == 6 * i + 3 || x == 6 * i + 4 || x == 6 * j + 1
            || x == 6 * j + 2 || x == 6 * j + 3 || x == 6 * j + 4);
    }
}

/// The nodes with every turn unknown.
pub open spec fn spec_reset(nodes: Seq<Node>) -> Seq<Node> {
    nodes.map_values(|n: Node| Node { turn: Turn::Undefined, ..n })
}

/// The polygon state after the turns of nodes 1 to `k` are computed in
/// order, as the builder computes them while placing nodes.
pub open spec fn spec_recount(nodes: Seq<Node>, k: nat) -> (Seq<Node>, Seq<usize>, Seq<usize>)
    decreases k,
{
    if k == 0 {
        (nodes, Seq::empty(), Seq::empty())
    } else {
        let st = spec_recount(nodes, (k - 1) as nat);
        spec_calc_turn(st.0, st.1, st.2, k as int)
    }
}

/// The polygon state of an outline drawn again through the same nodes.
pub open spec fn spec_redrawn(nodes: Seq<Node>) -> (Seq<Node>, Seq<usize>, Seq<usize>) {
    spec_recount(spec_reset(nodes), (nodes.len() - 2) as nat)
}

impl Base {
    /// The nodes form a ring of at least four and at most [MAX_NODES] nodes.
    pub open spec fn wf(&self) -> bool {
        &&& is_ring(self.nodes@)
        &&& 4 <= self.nodes@.len() <= MAX_NODES
    }

    /// Whether the nodes form a ring of at least four and at most
    /// [MAX_NODES] nodes.
    pub fn is_wf(&self) -> (r: bool)
        ensures
            r == self.wf(),
    {
        let n = self.nodes.len();
        if n < 4 || n > MAX_NODES {
            return false;
        }
        let mut i: usize = 0;
        while i < n
            invariant
                n == self.nodes@.len(),
                4 <= n <= MAX_NODES,
                i <= n,
                forall|k: int|
                    0 <= k < i ==> {
                        &&& (#[trigger] self.nodes@[k]).connection.next == (if k + 1 == n {
                            0
                        } else {
                            k + 1
                        })
                        &&& self.nodes@[k].connection.prev == (if k == 0 {
                            n - 1
                        } else {
                            k - 1
                        })
                    },
            decreases n - i,
        {
            let c = self.nodes.get(i).connection;
            let next = if i + 1 == n {
                0
            } else {
                i + 1
            };
            let prev = if i == 0 {
                n - 1
            } else {
                i - 1
            };
            if c.next != next || c.prev != prev {
                return false;
            }
            i = i + 1;
        }
        true
    }

    /// The nodes of the outline.
    pub fn nodes(&self) -> (r: &NodeList)
        ensures
            r@ == self.nodes@,
    {
        &self.nodes
    }

    /// The node at `index`.
    pub fn node(&self, index: usize) -> (n: Node)
        requires
            index < self.nodes@.len(),
        ensures
            n == self.nodes@[index as int],
    {
        self.nodes.get(index)
    }

    /// Triangulates the outline again through its current node positions,
    /// as if it were drawn anew: the turns are computed again in node order,
    /// then the mesh is built. On success the base takes the new turns and
    /// convex turn; `None` (and no change) when the ear clipping would never
    /// finish.
    pub fn update(&mut self) -> (r: Option<BaseMesh>)
        requires
            old(self).wf(),
        ensures
            ({
                let st = spec_redrawn(old(self).nodes@);
                &&& r is Some == spec_build_finishes(st.0, st.1, st.2)
                &&& r matches Some(mesh) ==> spec_build_ok(st.0, st.1, st.2, *final(self), mesh)
                &&& r is None ==> *final(self) == *old(self)
                &&& final(self).wf()
            }),
    {
        let n = self.nodes.len();
        let ghost old_nodes = self.nodes@;
        let ghost reset = spec_reset(old_nodes);
        let mut nodes = NodeList::with_capacity(n);
        let mut j: usize = 0;
        while j < n
            invariant
                n == old_nodes.len(),
                old_nodes == self.nodes@,
                reset == spec_reset(old_nodes),
                j <= n,
                nodes@ == reset.take(j as int),
            decreases n - j,
        {
            let node = self.nodes.get(j);
            nodes.push(Node { turn: Turn::Undefined, ..node });
            proof {
                assert(reset[j as int] == Node { turn: Turn::Undefined, ..node });
            }
            j = j + 1;
            proof {
                assert(nodes@ =~= reset.take(j as int));
            }
        }
        proof {
            assert(nodes@ =~= reset);
            assert(is_ring(reset)) by {
                assert forall|i: int| 0 <= i < reset.len() implies {
                    &&& (#[trigger] reset[i]).connection.next == (if i + 1 == reset.len() { 0 } else { i + 1 })
                    &&& reset[i].connection.prev == (if i == 0 { reset.len() - 1 } else { i - 1 })
                } by {
                    assert(reset[i].connection == old_nodes[i].connection);
                }
            }
        }
        let mut polygon: Polygon<X> = Polygon {
            nodes,
            cw_list: VecDeque::new(),
            ccw_list: VecDeque::new(),
            prev_move: PhantomData,
        };
        let mut i: usize = 1;
        while i < n - 1
            invariant
                n == reset.len(),
                4 <= n <= MAX_NODES,
                1 <= i <= n - 1,
                (polygon.nodes@, polygon.cw_list@, polygon.ccw_list@) == spec_recount(reset, (i - 1) as nat),
                polygon.nodes@.len() == n,
                forall|k: int| 0 <= k < n ==> (#[trigger] polygon.nodes@[k]).connection == reset[k].connection,
                forall|k: int| 0 < k < i ==> (#[trigger] polygon.nodes@[k]).turn != Turn::Undefined,
                links_in_range(polygon.nodes@),
                lists_wf(polygon.nodes@, polygon.cw_list@, polygon.ccw_list@),
                lists_match(polygon.nodes@, polygon.cw_list@, polygon.ccw_list@),
                forall|k: int| i <= k < n ==> (#[trigger] polygon.nodes@[k]).turn == Turn::Undefined,
                polygon.nodes@[0].turn == Turn::Undefined,
                forall|k: int|
                    0 < k < i ==> polygon.nodes@[k].turn == #[trigger] spec_node_turn(polygon.nodes@, k),
                forall|k: int| 0 <= k < n ==> (#[trigger] polygon.nodes@[k]).position == reset[k].position,
                is_ring(reset),
            decreases n - i,
        {
            proof {
                lemma_calc_turn_match(polygon.nodes@, polygon.cw_list@, polygon.ccw_list@, i as int);
            }
            let ghost before = polygon.nodes@;
            polygon.calc_node_turn(i);
            proof {
                let after = polygon.nodes@;
                assert forall|k: int| 0 < k < i + 1 implies after[k].turn == #[trigger] spec_node_turn(after, k) by {
                    let pk = reset[k].connection.prev as int;
                    let nk = reset[k].connection.next as int;
                    assert(after[k].connection == reset[k].connection);
                    assert(before[k].connection == reset[k].connection);
                    assert(after[pk].position == before[pk].position);
                    assert(after[nk].position == before[nk].position);
                    assert(spec_node_turn(after, k) == spec_node_turn(before, k));
                }
            }
            i = i + 1;
        }
        proof {
            let s = polygon.nodes@;
            assert(is_ring(s)) by {
                assert forall|k: int| 0 <= k < s.len() implies {
                    &&& (#[trigger] s[k]).connection.next == (if k + 1 == s.len() { 0 } else { k + 1 })
                    &&& s[k].connection.prev == (if k == 0 { s.len() - 1 } else { k - 1 })
                } by {
                    assert(s[k].connection == reset[k].connection);
                }
            }
            assert(turns_hold(s)) by {
                reveal(turns_hold);
            }
            assert(polygon_shape(s, polygon.cw_list@, polygon.ccw_list@));
        }
        let builder = BaseBuilder { geometry: polygon };
        match builder.build() {
            Some((base, mesh)) => {
                *self = base;
                Some(mesh)
            },
            None => None,
        }
    }
}

} // verus!
